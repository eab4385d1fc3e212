//! What reading back a written genome gives.

use vstd::prelude::*;
use crate::encoding::{code_of, low_bytes, value_of, lemma_code_round_trip};
use crate::genome::{
    decodes, digits_at, entries, field_value, first_bar, genome_readable, kept_from, part_readable,
    payload, read_span, Gene, NeuronGene, SynapseGene, BAR, NEURON_TAG, SYNAPSE_TAG,
};
use crate::genome_write::{
    count_code, genome_entries, genome_text, join, lemma_join_push, level_code, level_codes, min,
    neuron_entry, offset_letter, synapse_entry, type_char, Level, NeuronRecord, SynapseRecord,
    MAX_LEVEL,
};
use crate::ntype::NType;

verus! {

/// No byte is a `|`.
pub open spec fn no_bar(f: Seq<u8>) -> bool {
    forall|i: int| 0 <= i < f.len() ==> #[trigger] f[i] != BAR
}

/// What the level of a code reads back as.
pub open spec fn level_read_back(l: Level) -> usize {
    min(l.level as int, MAX_LEVEL as int) as usize
}

/// Whether `x` is what reading back the entry of neuron `r` gives: everything
/// but what a two-letter code cannot keep (ids modulo 676, counts and levels
/// at most 675).
pub open spec fn neuron_read_back(x: NeuronGene, r: NeuronRecord, eff: [u32; 4]) -> bool {
    &&& x.id == r.id % 676
    &&& x.code == type_char(r.typ, r.id, eff) as u8
    &&& x.threshold == level_read_back(r.threshold)
    &&& x.total == min(r.total as int, MAX_LEVEL as int)
    &&& x.food_ok == min(r.food_ok as int, MAX_LEVEL as int)
    &&& x.w_death == min(r.w_death as int, MAX_LEVEL as int)
    &&& x.module == r.module
    &&& x.attention@ == if r.typ.is_attention_source() {
        r.attention@.map_values(|l: Level| level_read_back(l))
    } else {
        Seq::<usize>::empty()
    }
}

/// Whether `x` is what reading back the entry of synapse `r` gives: everything
/// but what a two-letter code cannot keep.
pub open spec fn synapse_read_back(x: SynapseGene, r: SynapseRecord) -> bool {
    &&& x.from == r.from % 676
    &&& x.to == r.to % 676
    &&& x.strength == level_read_back(r.strength)
    &&& x.delay == r.delay
    &&& x.rec == r.rec
    &&& x.modu == r.modu
    &&& x.total == min(r.total as int, MAX_LEVEL as int)
    &&& x.food_ok == min(r.food_ok as int, MAX_LEVEL as int)
    &&& x.w_death == min(r.w_death as int, MAX_LEVEL as int)
    &&& x.module == r.module
    &&& x.attention == Some(level_read_back(r.attention))
}

/// The bytes of a two-letter code.
proof fn lemma_code_bytes(n: nat)
    ensures
        code_of(n).len() == 2,
        low_bytes(code_of(n)).len() == 2,
        low_bytes(code_of(n))[0] == 65 + (n / 26) % 26,
        low_bytes(code_of(n))[1] == 65 + n % 26,
        value_of(low_bytes(code_of(n))) == n % 676,
        code_of(n)[0] <= '\u{7f}',
        code_of(n)[1] <= '\u{7f}',
{
    lemma_code_round_trip(n);
}

/// The low bytes of a concatenation are the concatenation of the low bytes.
proof fn lemma_low_bytes_add(a: Seq<char>, b: Seq<char>)
    ensures
        low_bytes(a + b) == low_bytes(a) + low_bytes(b),
{
    assert(low_bytes(a + b) =~= low_bytes(a) + low_bytes(b));
}

/// The codes of `ls` take three letters each, in order.
proof fn lemma_level_codes(ls: Seq<Level>)
    ensures
        level_codes(ls).len() == 3 * ls.len(),
        forall|k: int|
            0 <= k < ls.len() ==> level_codes(ls).subrange(3 * k, 3 * k + 3) == #[trigger] level_code(
                ls[k],
            ),
    decreases ls.len(),
{
    if ls.len() > 0 {
        let init = ls.drop_last();
        lemma_level_codes(init);
        assert forall|k: int| 0 <= k < ls.len() implies level_codes(ls).subrange(
            3 * k,
            3 * k + 3,
        ) == #[trigger] level_code(ls[k]) by {
            if k < ls.len() - 1 {
                assert(level_codes(ls).subrange(3 * k, 3 * k + 3) =~= level_codes(init).subrange(
                    3 * k,
                    3 * k + 3,
                ));
                assert(init[k] == ls[k]);
            } else {
                assert(level_codes(ls).subrange(3 * k, 3 * k + 3) =~= level_code(ls.last()));
            }
        }
    }
}

/// The letters of a neuron entry, position by position.
#[verifier::spinoff_prover]
#[verifier::rlimit(60)]
proof fn lemma_neuron_entry_layout(r: NeuronRecord, eff: [u32; 4])
    requires
        r.attention@.len() == 12,
    ensures
        ({
            let e = neuron_entry(r, eff);
            let head = e.subrange(0, 14);
            &&& e.len() == if r.typ.is_attention_source() {
                50int
            } else {
                14int
            }
            &&& e[0] == 'N'
            &&& e.subrange(1, 3) == code_of(r.id as nat)
            &&& e[3] == type_char(r.typ, r.id, eff)
            &&& e.subrange(4, 7) == level_code(r.threshold)
            &&& e.subrange(7, 9) == count_code(r.total)
            &&& e.subrange(9, 11) == count_code(r.food_ok)
            &&& e.subrange(11, 13) == count_code(r.w_death)
            &&& e[13] == offset_letter(r.module)
            &&& r.typ.is_attention_source() ==> e.subrange(14, 50) == level_codes(r.attention@)
        }),
{
    reveal(neuron_entry);
    let e = neuron_entry(r, eff);
    let c = code_of(r.id as nat);
    let lc = level_code(r.threshold);
    let p1 = seq!['N'] + c;
    let p2 = p1 + seq![type_char(r.typ, r.id, eff)];
    let p3 = p2 + lc;
    let p4 = p3 + count_code(r.total);
    let p5 = p4 + count_code(r.food_ok);
    let p6 = p5 + count_code(r.w_death);
    let p7 = p6 + seq![offset_letter(r.module)];
    lemma_level_codes(r.attention@);
    let att = if r.typ.is_attention_source() {
        level_codes(r.attention@)
    } else {
        Seq::<char>::empty()
    };
    assert(e == p7 + att);
    assert(p7.len() == 14);
    assert(e.subrange(0, 14) =~= p7);
    assert(p7.subrange(1, 3) =~= c);
    assert(p7.subrange(4, 7) =~= lc);
    assert(p7.subrange(7, 9) =~= count_code(r.total));
    assert(p7.subrange(9, 11) =~= count_code(r.food_ok));
    assert(p7.subrange(11, 13) =~= count_code(r.w_death));
    assert(e.subrange(1, 3) =~= p7.subrange(1, 3));
    assert(e.subrange(4, 7) =~= p7.subrange(4, 7));
    assert(e.subrange(7, 9) =~= p7.subrange(7, 9));
    assert(e.subrange(9, 11) =~= p7.subrange(9, 11));
    assert(e.subrange(11, 13) =~= p7.subrange(11, 13));
    if r.typ.is_attention_source() {
        assert(e.subrange(14, 50) =~= att);
    }
}

/// A capital letter.
pub open spec fn upper(c: char) -> bool {
    'A' <= c <= 'Z'
}

/// The byte of a capital letter is a digit byte, and no `|`.
proof fn lemma_upper_byte(c: char)
    requires
        upper(c),
    ensures
        65 <= (c as u8) <= 90,
{
}

/// Codes are written in capital letters.
proof fn lemma_code_upper(n: nat)
    ensures
        forall|i: int| 0 <= i < 2 ==> upper(#[trigger] code_of(n)[i]),
{
}

/// Level codes are written in capital letters.
proof fn lemma_level_codes_upper(ls: Seq<Level>)
    ensures
        forall|i: int| 0 <= i < level_codes(ls).len() ==> upper(#[trigger] level_codes(ls)[i]),
    decreases ls.len(),
{
    lemma_level_codes(ls);
    if ls.len() > 0 {
        lemma_level_codes_upper(ls.drop_last());
        let l = ls.last();
        lemma_code_upper(min(l.level as int, MAX_LEVEL as int) as nat);
        assert forall|i: int| 0 <= i < level_codes(ls).len() implies upper(
            #[trigger] level_codes(ls)[i],
        ) by {
            let init = level_codes(ls.drop_last());
            if i < init.len() {
                assert(level_codes(ls)[i] == init[i]);
            } else {
                assert(level_codes(ls)[i] == level_code(l)[i - init.len()]);
            }
        }
    }
}

/// The letter a genome writes for a neuron's kind is a capital letter.
proof fn lemma_type_char_upper(typ: NType, id: u32, eff: [u32; 4])
    ensures
        upper(type_char(typ, id, eff)),
{
}

/// The low bytes of a piece are the piece of the low bytes.
proof fn lemma_low_bytes_subrange(e: Seq<char>, a: int, b: int)
    requires
        0 <= a <= b <= e.len(),
    ensures
        low_bytes(e).subrange(a, b) == low_bytes(e.subrange(a, b)),
{
    assert(low_bytes(e).subrange(a, b) =~= low_bytes(e.subrange(a, b)));
}

/// The number a code written into an entry reads back as.
proof fn lemma_code_field(e: Seq<char>, i: int, n: nat)
    requires
        0 <= i,
        i + 2 <= e.len(),
        e.subrange(i, i + 2) == code_of(n),
    ensures
        field_value(low_bytes(e), i) == n % 676,
        digits_at(low_bytes(e), i),
{
    lemma_low_bytes_subrange(e, i, i + 2);
    lemma_code_bytes(n);
    assert(low_bytes(e)[i] == low_bytes(e).subrange(i, i + 2)[0]);
    assert(low_bytes(e)[i + 1] == low_bytes(e).subrange(i, i + 2)[1]);
}

/// Every letter of a neuron entry is a capital letter, but the module letter
/// at position 13.
proof fn lemma_neuron_entry_upper(r: NeuronRecord, eff: [u32; 4])
    requires
        r.attention@.len() == 12,
    ensures
        forall|i: int|
            0 <= i < neuron_entry(r, eff).len() && i != 13 ==> upper(
                #[trigger] neuron_entry(r, eff)[i],
            ),
{
    let e = neuron_entry(r, eff);
    lemma_neuron_entry_layout(r, eff);
    lemma_type_char_upper(r.typ, r.id, eff);
    lemma_code_upper(r.id as nat);
    lemma_code_upper(min(r.threshold.level as int, MAX_LEVEL as int) as nat);
    lemma_code_upper(min(r.total as int, MAX_LEVEL as int) as nat);
    lemma_code_upper(min(r.food_ok as int, MAX_LEVEL as int) as nat);
    lemma_code_upper(min(r.w_death as int, MAX_LEVEL as int) as nat);
    lemma_level_codes_upper(r.attention@);
    assert forall|i: int| 0 <= i < e.len() && i != 13 implies upper(#[trigger] e[i]) by {
        if 1 <= i < 3 {
            assert(e[i] == e.subrange(1, 3)[i - 1]);
        } else if 4 <= i < 7 {
            assert(e[i] == e.subrange(4, 7)[i - 4]);
        } else if 7 <= i < 9 {
            assert(e[i] == e.subrange(7, 9)[i - 7]);
        } else if 9 <= i < 11 {
            assert(e[i] == e.subrange(9, 11)[i - 9]);
        } else if 11 <= i < 13 {
            assert(e[i] == e.subrange(11, 13)[i - 11]);
        } else if i >= 14 {
            assert(e[i] == e.subrange(14, 50)[i - 14]);
        }
    }
}

/// Whether the record's letters all fit in a genome that can be read back:
/// its module letter is plain ASCII and no `|`.
pub open spec fn neuron_writable(r: NeuronRecord) -> bool {
    &&& r.attention@.len() == 12
    &&& r.module <= 62
    &&& r.module != 59
}

/// Whether the synapse's letters all fit in a genome that can be read back.
pub open spec fn synapse_writable(r: SynapseRecord) -> bool {
    &&& r.module <= 62
    &&& r.module != 59
    &&& r.delay <= 62
    &&& r.delay != 59
}

/// A capital letter's byte read back as a character is the letter.
proof fn lemma_upper_char_byte(c: char)
    requires
        upper(c),
    ensures
        (c as u8) as char == c,
{
}

/// The entry of a neuron is plain ASCII without a `|`, and its kind letter
/// reads back as a query, key or value kind exactly for those neurons.
proof fn lemma_neuron_entry_letters(r: NeuronRecord, eff: [u32; 4])
    requires
        neuron_writable(r),
    ensures
        ({
            let e = neuron_entry(r, eff);
            let f = low_bytes(e);
            &&& vstd::utf8::is_ascii_chars(e)
            &&& no_bar(f)
            &&& f[0] == NEURON_TAG
            &&& f[3] == type_char(r.typ, r.id, eff) as u8
            &&& r.typ.is_attention_source() ==> NType::from(f[3] as char).is_attention_source()
            &&& f[13] == 65 + r.module
        }),
{
    let e = neuron_entry(r, eff);
    let f = low_bytes(e);
    lemma_neuron_entry_layout(r, eff);
    lemma_neuron_entry_upper(r, eff);
    let tc = type_char(r.typ, r.id, eff);
    lemma_type_char_upper(r.typ, r.id, eff);
    lemma_upper_char_byte(tc);
    assert(f[13] == 65 + r.module);
    assert forall|i: int| 0 <= i < f.len() implies #[trigger] f[i] != BAR by {
        if i != 13 {
            lemma_upper_byte(e[i]);
        }
    }
    assert forall|i: int| 0 <= i < e.len() implies '\0' <= #[trigger] e[i] <= '\u{7f}' by {
        if i != 13 {
            assert(upper(e[i]));
        }
    }
    assert(vstd::utf8::is_ascii_chars(e));
    assert(f[0] == NEURON_TAG);
    assert(f[3] == tc as u8);
    assert(NType::from(f[3] as char) == NType::from(tc));
}

/// The fixed fields of a neuron entry read back as the neuron's.
#[verifier::spinoff_prover]
#[verifier::rlimit(60)]
proof fn lemma_neuron_entry_fields(r: NeuronRecord, eff: [u32; 4])
    requires
        neuron_writable(r),
    ensures
        ({
            let f = low_bytes(neuron_entry(r, eff));
            &&& f.len() >= 14
            &&& field_value(f, 1) == r.id % 676 && digits_at(f, 1)
            &&& field_value(f, 5) == level_read_back(r.threshold) && digits_at(f, 5)
            &&& field_value(f, 7) == min(r.total as int, MAX_LEVEL as int) && digits_at(f, 7)
            &&& field_value(f, 9) == min(r.food_ok as int, MAX_LEVEL as int) && digits_at(f, 9)
            &&& field_value(f, 11) == min(r.w_death as int, MAX_LEVEL as int) && digits_at(f, 11)
        }),
{
    let e = neuron_entry(r, eff);
    let m = min(r.threshold.level as int, MAX_LEVEL as int) as nat;
    assert(e.len() >= 14 && e.subrange(1, 3) == code_of(r.id as nat)) by {
        lemma_neuron_entry_layout(r, eff);
    }
    lemma_code_field(e, 1, r.id as nat);
    assert(e.subrange(5, 7) == code_of(m)) by {
        lemma_neuron_entry_layout(r, eff);
        assert(level_code(r.threshold).subrange(1, 3) =~= code_of(m));
        assert(e.subrange(5, 7) =~= e.subrange(4, 7).subrange(1, 3));
    }
    lemma_code_field(e, 5, m);
    assert(e.subrange(7, 9) == count_code(r.total)) by {
        lemma_neuron_entry_layout(r, eff);
    }
    lemma_code_field(e, 7, min(r.total as int, MAX_LEVEL as int) as nat);
    assert(e.subrange(9, 11) == count_code(r.food_ok)) by {
        lemma_neuron_entry_layout(r, eff);
    }
    lemma_code_field(e, 9, min(r.food_ok as int, MAX_LEVEL as int) as nat);
    assert(e.subrange(11, 13) == count_code(r.w_death)) by {
        lemma_neuron_entry_layout(r, eff);
    }
    lemma_code_field(e, 11, min(r.w_death as int, MAX_LEVEL as int) as nat);
}

/// The vector levels of a query, key or value neuron's entry read back as its
/// levels.
#[verifier::spinoff_prover]
#[verifier::rlimit(60)]
proof fn lemma_neuron_entry_vectors(r: NeuronRecord, eff: [u32; 4])
    requires
        neuron_writable(r),
        r.typ.is_attention_source(),
    ensures
        ({
            let f = low_bytes(neuron_entry(r, eff));
            &&& f.len() == 50
            &&& forall|k: int| 0 <= k < 12 ==> #[trigger] digits_at(f, 15 + 3 * k)
            &&& Seq::new(12, |k: int| field_value(f, 15 + 3 * k) as usize) == r.attention@.map_values(
                |l: Level| level_read_back(l),
            )
        }),
{
    let e = neuron_entry(r, eff);
    let f = low_bytes(e);
    lemma_neuron_entry_layout(r, eff);
    lemma_level_codes(r.attention@);
    assert forall|k: int| 0 <= k < 12 implies field_value(f, 15 + 3 * k) == level_read_back(
        r.attention@[k],
    ) && #[trigger] digits_at(f, 15 + 3 * k) by {
        let l = r.attention@[k];
        let m = min(l.level as int, MAX_LEVEL as int) as nat;
        assert(level_codes(r.attention@).subrange(3 * k, 3 * k + 3) == level_code(l));
        assert(level_code(l).subrange(1, 3) =~= code_of(m));
        assert(e.subrange(15 + 3 * k, 17 + 3 * k) =~= e.subrange(14, 50).subrange(
            3 * k,
            3 * k + 3,
        ).subrange(1, 3));
        lemma_code_field(e, 15 + 3 * k, m);
    }
    let got = Seq::new(12, |k: int| field_value(f, 15 + 3 * k) as usize);
    let want = r.attention@.map_values(|l: Level| level_read_back(l));
    assert forall|k: int| 0 <= k < 12 implies got[k] == want[k] by {
        assert(digits_at(f, 15 + 3 * k));
    }
    assert(got =~= want);
}

/// The entry of a neuron reads back as the neuron. The entry is plain ASCII
/// without a `|`.
#[verifier::spinoff_prover]
#[verifier::rlimit(60)]
proof fn lemma_neuron_entry_reads(r: NeuronRecord, eff: [u32; 4])
    requires
        neuron_writable(r),
    ensures
        ({
            let e = neuron_entry(r, eff);
            let f = low_bytes(e);
            &&& vstd::utf8::is_ascii_chars(e)
            &&& no_bar(f)
            &&& f.len() >= 14
            &&& decodes(f)
            &&& part_readable(f)
            &&& forall|x: NeuronGene| #[trigger] x.read_from(f) ==> neuron_read_back(x, r, eff)
        }),
{
    let e = neuron_entry(r, eff);
    let f = low_bytes(e);
    let qkv = r.typ.is_attention_source();
    lemma_neuron_entry_layout(r, eff);
    lemma_neuron_entry_letters(r, eff);
    lemma_neuron_entry_fields(r, eff);
    if qkv {
        lemma_neuron_entry_vectors(r, eff);
    }
    assert forall|i: int| 0 <= i < read_span(f) implies #[trigger] f[i] < 128 by {
        assert('\0' <= e[i] <= '\u{7f}');
    }
    assert forall|x: NeuronGene| #[trigger] x.read_from(f) implies neuron_read_back(x, r, eff) by {}
}

/// The letters of a synapse entry, position by position.
#[verifier::spinoff_prover]
#[verifier::rlimit(60)]
proof fn lemma_synapse_entry_layout(r: SynapseRecord)
    ensures
        ({
            let e = synapse_entry(r);
            &&& e.len() == 21
            &&& e[0] == 'S'
            &&& e.subrange(1, 3) == code_of(r.from as nat)
            &&& e.subrange(3, 5) == code_of(r.to as nat)
            &&& e.subrange(5, 8) == level_code(r.strength)
            &&& e[8] == offset_letter(r.delay)
            &&& e[9] == if r.rec {
                'R'
            } else {
                'F'
            }
            &&& e[10] == if r.modu {
                'M'
            } else {
                'S'
            }
            &&& e.subrange(11, 13) == count_code(r.total)
            &&& e.subrange(13, 15) == count_code(r.food_ok)
            &&& e.subrange(15, 17) == count_code(r.w_death)
            &&& e[17] == offset_letter(r.module)
            &&& e.subrange(18, 21) == level_code(r.attention)
        }),
{
    reveal(synapse_entry);
    let e = synapse_entry(r);
    assert(e.subrange(1, 3) =~= code_of(r.from as nat));
    assert(e.subrange(3, 5) =~= code_of(r.to as nat));
    assert(e.subrange(5, 8) =~= level_code(r.strength));
    assert(e.subrange(11, 13) =~= count_code(r.total));
    assert(e.subrange(13, 15) =~= count_code(r.food_ok));
    assert(e.subrange(15, 17) =~= count_code(r.w_death));
    assert(e.subrange(18, 21) =~= level_code(r.attention));
}

/// Every letter of a synapse entry is a capital letter, but the delay and
/// module letters at positions 8 and 17.
proof fn lemma_synapse_entry_upper(r: SynapseRecord)
    ensures
        forall|i: int|
            0 <= i < synapse_entry(r).len() && i != 8 && i != 17 ==> upper(
                #[trigger] synapse_entry(r)[i],
            ),
{
    let e = synapse_entry(r);
    lemma_synapse_entry_layout(r);
    lemma_code_upper(r.from as nat);
    lemma_code_upper(r.to as nat);
    lemma_code_upper(min(r.strength.level as int, MAX_LEVEL as int) as nat);
    lemma_code_upper(min(r.total as int, MAX_LEVEL as int) as nat);
    lemma_code_upper(min(r.food_ok as int, MAX_LEVEL as int) as nat);
    lemma_code_upper(min(r.w_death as int, MAX_LEVEL as int) as nat);
    lemma_code_upper(min(r.attention.level as int, MAX_LEVEL as int) as nat);
    assert forall|i: int| 0 <= i < e.len() && i != 8 && i != 17 implies upper(#[trigger] e[i]) by {
        if 1 <= i < 3 {
            assert(e[i] == e.subrange(1, 3)[i - 1]);
        } else if 3 <= i < 5 {
            assert(e[i] == e.subrange(3, 5)[i - 3]);
        } else if 5 <= i < 8 {
            assert(e[i] == e.subrange(5, 8)[i - 5]);
        } else if 11 <= i < 13 {
            assert(e[i] == e.subrange(11, 13)[i - 11]);
        } else if 13 <= i < 15 {
            assert(e[i] == e.subrange(13, 15)[i - 13]);
        } else if 15 <= i < 17 {
            assert(e[i] == e.subrange(15, 17)[i - 15]);
        } else if 18 <= i < 21 {
            assert(e[i] == e.subrange(18, 21)[i - 18]);
        }
    }
}

/// The entry of a synapse is plain ASCII without a `|`.
proof fn lemma_synapse_entry_letters(r: SynapseRecord)
    requires
        synapse_writable(r),
    ensures
        ({
            let e = synapse_entry(r);
            let f = low_bytes(e);
            &&& vstd::utf8::is_ascii_chars(e)
            &&& no_bar(f)
            &&& f.len() == 21
            &&& f[0] == SYNAPSE_TAG
            &&& f[8] == 65 + r.delay
            &&& f[17] == 65 + r.module
            &&& (f[9] == 82 <==> r.rec)
            &&& (f[10] == 77 <==> r.modu)
        }),
{
    let e = synapse_entry(r);
    let f = low_bytes(e);
    lemma_synapse_entry_layout(r);
    lemma_synapse_entry_upper(r);
    assert(f[8] == 65 + r.delay);
    assert(f[17] == 65 + r.module);
    assert forall|i: int| 0 <= i < f.len() implies #[trigger] f[i] != BAR by {
        if i != 8 && i != 17 {
            lemma_upper_byte(e[i]);
        }
    }
    assert forall|i: int| 0 <= i < e.len() implies '\0' <= #[trigger] e[i] <= '\u{7f}' by {
        if i != 8 && i != 17 {
            assert(upper(e[i]));
        }
    }
}

/// The ends and codes of a synapse entry read back as the synapse's.
proof fn lemma_synapse_entry_codes(r: SynapseRecord)
    ensures
        ({
            let f = low_bytes(synapse_entry(r));
            &&& field_value(f, 1) == r.from % 676 && digits_at(f, 1)
            &&& field_value(f, 3) == r.to % 676 && digits_at(f, 3)
            &&& field_value(f, 6) == level_read_back(r.strength) && digits_at(f, 6)
            &&& field_value(f, 19) == level_read_back(r.attention) && digits_at(f, 19)
        }),
{
    let e = synapse_entry(r);
    let ms = min(r.strength.level as int, MAX_LEVEL as int) as nat;
    let ma = min(r.attention.level as int, MAX_LEVEL as int) as nat;
    assert(e.len() == 21 && e.subrange(1, 3) == code_of(r.from as nat)) by {
        lemma_synapse_entry_layout(r);
    }
    lemma_code_field(e, 1, r.from as nat);
    assert(e.subrange(3, 5) == code_of(r.to as nat)) by {
        lemma_synapse_entry_layout(r);
    }
    lemma_code_field(e, 3, r.to as nat);
    assert(e.subrange(6, 8) == code_of(ms)) by {
        lemma_synapse_entry_layout(r);
        assert(level_code(r.strength).subrange(1, 3) =~= code_of(ms));
        assert(e.subrange(6, 8) =~= e.subrange(5, 8).subrange(1, 3));
    }
    lemma_code_field(e, 6, ms);
    assert(e.subrange(19, 21) == code_of(ma)) by {
        lemma_synapse_entry_layout(r);
        assert(level_code(r.attention).subrange(1, 3) =~= code_of(ma));
        assert(e.subrange(19, 21) =~= e.subrange(18, 21).subrange(1, 3));
    }
    lemma_code_field(e, 19, ma);
}

/// The counts of a synapse entry read back as the synapse's.
proof fn lemma_synapse_entry_counts(r: SynapseRecord)
    ensures
        ({
            let f = low_bytes(synapse_entry(r));
            &&& field_value(f, 11) == min(r.total as int, MAX_LEVEL as int) && digits_at(f, 11)
            &&& field_value(f, 13) == min(r.food_ok as int, MAX_LEVEL as int) && digits_at(f, 13)
            &&& field_value(f, 15) == min(r.w_death as int, MAX_LEVEL as int) && digits_at(f, 15)
        }),
{
    let e = synapse_entry(r);
    assert(e.len() == 21 && e.subrange(11, 13) == count_code(r.total)) by {
        lemma_synapse_entry_layout(r);
    }
    lemma_code_field(e, 11, min(r.total as int, MAX_LEVEL as int) as nat);
    assert(e.subrange(13, 15) == count_code(r.food_ok)) by {
        lemma_synapse_entry_layout(r);
    }
    lemma_code_field(e, 13, min(r.food_ok as int, MAX_LEVEL as int) as nat);
    assert(e.subrange(15, 17) == count_code(r.w_death)) by {
        lemma_synapse_entry_layout(r);
    }
    lemma_code_field(e, 15, min(r.w_death as int, MAX_LEVEL as int) as nat);
}

/// The entry of a synapse reads back as the synapse. The entry is plain ASCII
/// without a `|`.
#[verifier::spinoff_prover]
#[verifier::rlimit(60)]
proof fn lemma_synapse_entry_reads(r: SynapseRecord)
    requires
        synapse_writable(r),
    ensures
        ({
            let e = synapse_entry(r);
            let f = low_bytes(e);
            &&& vstd::utf8::is_ascii_chars(e)
            &&& no_bar(f)
            &&& f.len() == 21
            &&& decodes(f)
            &&& part_readable(f)
            &&& forall|x: SynapseGene| #[trigger] x.read_from(f) ==> synapse_read_back(x, r)
        }),
{
    let e = synapse_entry(r);
    let f = low_bytes(e);
    lemma_synapse_entry_letters(r);
    lemma_synapse_entry_codes(r);
    lemma_synapse_entry_counts(r);
    assert forall|i: int| 0 <= i < read_span(f) implies #[trigger] f[i] < 128 by {
        assert('\0' <= e[i] <= '\u{7f}');
    }
    assert forall|x: SynapseGene| #[trigger] x.read_from(f) implies synapse_read_back(x, r) by {}
}

/// The pieces that are read, in order: those that are entries.
pub open spec fn keep(es: Seq<Seq<u8>>) -> Seq<Seq<u8>>
    decreases es.len(),
{
    if es.len() == 0 {
        seq![]
    } else {
        (if decodes(es[0]) {
            seq![es[0]]
        } else {
            seq![]
        }) + keep(es.drop_first())
    }
}

/// The first `|` from `i` on is at `j` when there is none in between.
proof fn lemma_first_bar_exact(s: Seq<u8>, i: int, j: int)
    requires
        0 <= i <= j <= s.len(),
        forall|k: int| i <= k < j ==> s[k] != BAR,
        j < s.len() ==> s[j] == BAR,
    ensures
        first_bar(s, i) == j,
    decreases j - i,
{
    if i < j {
        lemma_first_bar_exact(s, i + 1, j);
    }
}

/// Reading pieces joined by `|` (none holding a `|`) finds the pieces.
proof fn lemma_kept_join(pre: Seq<u8>, es: Seq<Seq<u8>>)
    requires
        es.len() >= 1,
        forall|i: int| 0 <= i < es.len() ==> no_bar(#[trigger] es[i]),
    ensures
        kept_from(pre + join(es, BAR), pre.len() as int) == keep(es),
    decreases es.len(),
{
    let s = pre + join(es, BAR);
    let i = pre.len() as int;
    let e0 = es[0];
    assert(no_bar(e0));
    if es.len() == 1 {
        assert(s == pre + e0);
        assert forall|k: int| i <= k < s.len() implies s[k] != BAR by {
            assert(s[k] == e0[k - i]);
        }
        lemma_first_bar_exact(s, i, s.len() as int);
        assert(s.subrange(i, s.len() as int) =~= e0);
        assert(es.drop_first() =~= Seq::<Seq<u8>>::empty());
        assert(keep(es.drop_first()) =~= Seq::<Seq<u8>>::empty());
        assert(keep(es) =~= (if decodes(e0) {
            seq![e0]
        } else {
            seq![]
        }));
    } else {
        let rest = es.drop_first();
        let pre2 = pre + e0 + seq![BAR];
        assert(s =~= pre2 + join(rest, BAR));
        let j = i + e0.len();
        assert forall|k: int| i <= k < j implies s[k] != BAR by {
            assert(s[k] == e0[k - i]);
        }
        assert(s[j] == BAR);
        lemma_first_bar_exact(s, i, j);
        assert(s.subrange(i, j) =~= e0);
        assert forall|k: int| 0 <= k < rest.len() implies no_bar(#[trigger] rest[k]) by {
            assert(rest[k] == es[k + 1]);
        }
        lemma_kept_join(pre2, rest);
        assert(pre2.len() == j + 1);
    }
}

/// When every piece but the last is an entry, all of them but perhaps the last
/// are read.
proof fn lemma_keep_all_but_last(es: Seq<Seq<u8>>)
    requires
        es.len() >= 1,
        forall|i: int| 0 <= i < es.len() - 1 ==> decodes(#[trigger] es[i]),
    ensures
        keep(es) == es.drop_last() + if decodes(es.last()) {
            seq![es.last()]
        } else {
            Seq::<Seq<u8>>::empty()
        },
    decreases es.len(),
{
    if es.len() == 1 {
        assert(es.drop_first() =~= Seq::<Seq<u8>>::empty());
        assert(keep(es.drop_first()) =~= Seq::<Seq<u8>>::empty());
        assert(es.drop_last() =~= Seq::<Seq<u8>>::empty());
        assert(keep(es) =~= es.drop_last() + if decodes(es.last()) {
            seq![es.last()]
        } else {
            Seq::<Seq<u8>>::empty()
        });
    } else {
        let rest = es.drop_first();
        assert forall|i: int| 0 <= i < rest.len() - 1 implies decodes(#[trigger] rest[i]) by {
            assert(rest[i] == es[i + 1]);
        }
        lemma_keep_all_but_last(rest);
        assert(decodes(es[0]));
        assert(rest.last() == es.last());
        assert(es.drop_last() =~= seq![es[0]] + rest.drop_last());
    }
}

/// The low bytes of joined pieces are the joined low bytes.
proof fn lemma_low_bytes_join(es: Seq<Seq<char>>)
    ensures
        low_bytes(join(es, '|')) == join(es.map_values(|e: Seq<char>| low_bytes(e)), BAR),
    decreases es.len(),
{
    let bs = es.map_values(|e: Seq<char>| low_bytes(e));
    if es.len() == 1 {
        assert(bs[0] == low_bytes(es[0]));
    } else if es.len() > 1 {
        lemma_low_bytes_join(es.drop_first());
        assert(es.drop_first().map_values(|e: Seq<char>| low_bytes(e)) =~= bs.drop_first());
        lemma_low_bytes_add(es[0] + seq!['|'], join(es.drop_first(), '|'));
        lemma_low_bytes_add(es[0], seq!['|']);
        assert(low_bytes(seq!['|']) =~= seq![BAR]);
        assert(bs[0] == low_bytes(es[0]));
    } else {
        assert(low_bytes(join(es, '|')) =~= join(bs, BAR));
    }
}

/// Pieces of plain ASCII joined by `|` are plain ASCII.
proof fn lemma_join_ascii(es: Seq<Seq<char>>)
    requires
        forall|i: int| 0 <= i < es.len() ==> vstd::utf8::is_ascii_chars(#[trigger] es[i]),
    ensures
        vstd::utf8::is_ascii_chars(join(es, '|')),
    decreases es.len(),
{
    if es.len() > 1 {
        let rest = es.drop_first();
        assert forall|i: int| 0 <= i < rest.len() implies vstd::utf8::is_ascii_chars(
            #[trigger] rest[i],
        ) by {
            assert(rest[i] == es[i + 1]);
        }
        lemma_join_ascii(rest);
        let j = join(es, '|');
        let a = es[0];
        assert(vstd::utf8::is_ascii_chars(a));
        assert forall|k: int| 0 <= k < j.len() implies '\0' <= #[trigger] j[k] <= '\u{7f}' by {
            if k < a.len() {
                assert(j[k] == a[k]);
            } else if k > a.len() {
                assert(j[k] == join(rest, '|')[k - a.len() - 1]);
            }
        }
    } else if es.len() == 1 {
        assert(vstd::utf8::is_ascii_chars(es[0]));
    }
}

/// Whether `x` is what reading back the entry of the `i`-th record gives (the
/// neurons first, then the synapses).
pub open spec fn record_read_back(
    x: Gene,
    ns: Seq<NeuronRecord>,
    ss: Seq<SynapseRecord>,
    eff: [u32; 4],
    i: int,
) -> bool {
    if i < ns.len() {
        match x {
            Gene::Neuron(g) => neuron_read_back(g, ns[i], eff),
            Gene::Synapse(_) => false,
        }
    } else {
        match x {
            Gene::Synapse(g) => synapse_read_back(g, ss[i - ns.len()]),
            Gene::Neuron(_) => false,
        }
    }
}

/// What holds of the entry of the `i`-th record.
proof fn lemma_entry_facts(ns: Seq<NeuronRecord>, ss: Seq<SynapseRecord>, eff: [u32; 4], i: int)
    requires
        0 <= i < ns.len() + ss.len(),
        forall|k: int| 0 <= k < ns.len() ==> neuron_writable(#[trigger] ns[k]),
        forall|k: int| 0 <= k < ss.len() ==> synapse_writable(#[trigger] ss[k]),
    ensures
        ({
            let e = genome_entries(ns, ss, eff)[i];
            let f = low_bytes(e);
            &&& vstd::utf8::is_ascii_chars(e)
            &&& no_bar(f)
            &&& f.len() >= 14
            &&& decodes(f)
            &&& part_readable(f)
            &&& forall|x: Gene| #[trigger] x.read_from(f) ==> record_read_back(x, ns, ss, eff, i)
        }),
{
    let es = genome_entries(ns, ss, eff);
    if i < ns.len() {
        let r = ns[i];
        assert(neuron_writable(r));
        assert(es[i] == neuron_entry(r, eff));
        lemma_neuron_entry_reads(r, eff);
        lemma_neuron_entry_letters(r, eff);
        let f = low_bytes(es[i]);
        assert forall|x: Gene| #[trigger] x.read_from(f) implies record_read_back(
            x,
            ns,
            ss,
            eff,
            i,
        ) by {
            match x {
                Gene::Neuron(g) => {
                    assert(g.read_from(f));
                },
                Gene::Synapse(g) => {
                    assert(f[0] == NEURON_TAG);
                },
            }
        }
    } else {
        let r = ss[i - ns.len()];
        assert(synapse_writable(r));
        assert(es[i] == synapse_entry(r));
        lemma_synapse_entry_reads(r);
        lemma_synapse_entry_letters(r);
        let f = low_bytes(es[i]);
        assert forall|x: Gene| #[trigger] x.read_from(f) implies record_read_back(
            x,
            ns,
            ss,
            eff,
            i,
        ) by {
            match x {
                Gene::Synapse(g) => {
                    assert(g.read_from(f));
                },
                Gene::Neuron(g) => {
                    assert(f[0] == SYNAPSE_TAG);
                },
            }
        }
    }
}

/// Reading back a written genome gives back every neuron and every synapse.
/// Write a brain whose module and delay letters are plain ASCII and no `|`:
/// the genome is plain ASCII and can be read, it has one entry per neuron and
/// synapse, in order, and each reads back as its neuron or synapse, whole but
/// for what a two-letter code keeps (ids modulo 676; counts and levels at most
/// 675).
pub proof fn lemma_genome_round_trip(ns: Seq<NeuronRecord>, ss: Seq<SynapseRecord>, eff: [u32; 4])
    requires
        ns.len() + ss.len() >= 1,
        forall|k: int| 0 <= k < ns.len() ==> neuron_writable(#[trigger] ns[k]),
        forall|k: int| 0 <= k < ss.len() ==> synapse_writable(#[trigger] ss[k]),
    ensures
        ({
            let text = genome_text(ns, ss, eff);
            let g = vstd::utf8::encode_utf8(text);
            &&& vstd::utf8::is_ascii_chars(text)
            &&& genome_readable(g)
            &&& entries(g).len() == ns.len() + ss.len()
            &&& forall|i: int, x: Gene|
                0 <= i < entries(g).len() && #[trigger] x.read_from(entries(g)[i])
                    ==> record_read_back(x, ns, ss, eff, i)
        }),
{
    let es = genome_entries(ns, ss, eff);
    let n = es.len();
    let bs = es.map_values(|e: Seq<char>| low_bytes(e));
    let p = join(es, '|');
    let text = genome_text(ns, ss, eff);
    let c = code_of(((vstd::utf8::encode_utf8(p).len() as usize) % 456976) as nat);
    assert(text == p + c);
    lemma_code_bytes(((vstd::utf8::encode_utf8(p).len() as usize) % 456976) as nat);
    assert forall|i: int| 0 <= i < n implies vstd::utf8::is_ascii_chars(#[trigger] es[i]) && no_bar(
        bs[i],
    ) && decodes(bs[i]) && bs[i].len() >= 14 by {
        lemma_entry_facts(ns, ss, eff, i);
    }
    lemma_join_ascii(es);
    assert(vstd::utf8::is_ascii_chars(c)) by {
        lemma_code_upper(((vstd::utf8::encode_utf8(p).len() as usize) % 456976) as nat);
    }
    assert forall|k: int| 0 <= k < text.len() implies '\0' <= #[trigger] text[k] <= '\u{7f}' by {
        if k < p.len() {
            assert(text[k] == p[k]);
        } else {
            assert(text[k] == c[k - p.len()]);
        }
    }
    let g = low_bytes(text);
    vstd::utf8::is_ascii_chars_encode_utf8(text);
    assert(vstd::utf8::encode_utf8(text) =~= g);
    lemma_low_bytes_join(es);
    lemma_low_bytes_add(p, c);
    let jb = join(bs, BAR);
    assert(g == jb + low_bytes(c));
    assert(jb.len() >= 14) by {
        if n == 1 {
            assert(jb == bs[0]);
        } else {
            lemma_join_push(bs.drop_last(), bs.last(), BAR);
            assert(bs.drop_last().push(bs.last()) =~= bs);
        }
    }
    assert(payload(g) =~= jb);
    assert forall|i: int| 0 <= i < n implies no_bar(#[trigger] bs[i]) by {
        lemma_entry_facts(ns, ss, eff, i);
    }
    assert(Seq::<u8>::empty() + jb =~= jb);
    lemma_kept_join(Seq::<u8>::empty(), bs);
    assert(entries(g) == keep(bs));
    assert forall|i: int| 0 <= i < bs.len() - 1 implies decodes(#[trigger] bs[i]) by {
        lemma_entry_facts(ns, ss, eff, i);
    }
    lemma_keep_all_but_last(bs);
    lemma_entry_facts(ns, ss, eff, n - 1);
    assert(bs.last() == bs[n - 1]);
    assert(bs.drop_last() + seq![bs.last()] =~= bs);
    assert(entries(g) == bs);
    assert forall|i: int| 0 <= i < entries(g).len() implies #[trigger] part_readable(
        entries(g)[i],
    ) by {
        lemma_entry_facts(ns, ss, eff, i);
    }
    assert forall|i: int, x: Gene|
        0 <= i < entries(g).len() && #[trigger] x.read_from(entries(g)[i]) implies record_read_back(
        x,
        ns,
        ss,
        eff,
        i,
    ) by {
        lemma_entry_facts(ns, ss, eff, i);
    }
}

} // verus!
