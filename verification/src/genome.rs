//! The genome: a brain written as text. Each neuron and each synapse is one
//! entry of letters; entries are joined by `|` and followed by a two-letter
//! length code. This module reads and writes that text.

use vstd::prelude::*;
use crate::encoding::{value_of, lemma_value_pair};
use crate::ntype::NType;

verus! {

/// `|`, between entries.
pub const BAR: u8 = 124;

/// `N`, first letter of a neuron entry.
pub const NEURON_TAG: u8 = 78;

/// `S`, first letter of a synapse entry.
pub const SYNAPSE_TAG: u8 = 83;

/// The shortest neuron entry that is read.
pub const NEURON_LEN: usize = 14;

/// The shortest neuron entry whose query, key and value codes are read.
pub const NEURON_ATTENTION_LEN: usize = 50;

/// The shortest synapse entry that is read.
pub const SYNAPSE_LEN: usize = 18;

/// The shortest synapse entry whose attention weight is read.
pub const SYNAPSE_ATTENTION_LEN: usize = 21;

/// The part of a genome that holds entries: all but the two-letter length code
/// at its end, when it is longer than two.
pub open spec fn payload(g: Seq<u8>) -> Seq<u8> {
    if g.len() > 2 {
        g.take(g.len() - 2)
    } else {
        g
    }
}

/// The position of the first `|` at or after `i`; the length when there is
/// none.
pub open spec fn first_bar(s: Seq<u8>, i: int) -> int
    decreases s.len() - i,
{
    if i >= s.len() {
        s.len() as int
    } else if s[i] == BAR {
        i
    } else {
        first_bar(s, i + 1)
    }
}

/// `first_bar` lies between `i` and the end, is a bar when it is not the
/// end, and no bar comes before it from `i` on.
pub proof fn lemma_first_bar(s: Seq<u8>, i: int)
    requires
        0 <= i <= s.len(),
    ensures
        i <= first_bar(s, i) <= s.len(),
        first_bar(s, i) < s.len() ==> s[first_bar(s, i)] == BAR,
        forall|j: int| i <= j < first_bar(s, i) ==> s[j] != BAR,
    decreases s.len() - i,
{
    if i < s.len() && s[i] != BAR {
        lemma_first_bar(s, i + 1);
    }
}

/// Whether a piece of text between bars is an entry that is read: a neuron
/// entry of at least 14 bytes or a synapse entry of at least 18.
pub open spec fn decodes(f: Seq<u8>) -> bool {
    f.len() > 0 && ((f[0] == NEURON_TAG && f.len() >= NEURON_LEN) || (f[0] == SYNAPSE_TAG
        && f.len() >= SYNAPSE_LEN))
}

/// The entries that are read from the pieces of `s` between bars, starting at
/// position `start`, in order.
pub open spec fn kept_from(s: Seq<u8>, start: int) -> Seq<Seq<u8>>
    decreases s.len() - start,
{
    if start < 0 || start > s.len() {
        seq![]
    } else {
        let k = first_bar(s, start);
        proof {
            lemma_first_bar(s, start);
        }
        let f = s.subrange(start, k);
        let here = if decodes(f) {
            seq![f]
        } else {
            seq![]
        };
        if k >= s.len() {
            here
        } else {
            here + kept_from(s, k + 1)
        }
    }
}

/// The entries of a genome that are read, in order.
pub open spec fn entries(g: Seq<u8>) -> Seq<Seq<u8>> {
    kept_from(payload(g), 0)
}

/// The number written by the two letters at `i`.
pub open spec fn field_value(f: Seq<u8>, i: int) -> int {
    value_of(f.subrange(i, i + 2))
}

/// Whether the two letters at `i` can be read as digits.
pub open spec fn digits_at(f: Seq<u8>, i: int) -> bool {
    f[i] >= 65 && f[i + 1] >= 65
}

/// Whether a neuron entry carries its query, key and value codes: its kind
/// letter names one of those kinds, and it is long enough.
pub open spec fn reads_attention(f: Seq<u8>) -> bool {
    NType::from(f[3] as char).is_attention_source() && f.len() >= NEURON_ATTENTION_LEN
}

/// How many leading bytes of an entry are read: 14 of a neuron entry, 50 when
/// it carries query, key and value codes; 18 of a synapse entry, 21 when it
/// carries an attention weight; none of any other piece.
pub open spec fn read_span(f: Seq<u8>) -> int {
    if f.len() >= NEURON_LEN && f[0] == NEURON_TAG {
        if reads_attention(f) {
            NEURON_ATTENTION_LEN as int
        } else {
            NEURON_LEN as int
        }
    } else if f.len() >= SYNAPSE_LEN && f[0] == SYNAPSE_TAG {
        if f.len() >= SYNAPSE_ATTENTION_LEN {
            SYNAPSE_ATTENTION_LEN as int
        } else {
            SYNAPSE_LEN as int
        }
    } else {
        0
    }
}

/// Whether an entry can be read: the bytes read are plain ASCII, so that each
/// letter is one character, and every letter read as a digit is at least `A`.
pub open spec fn part_readable(f: Seq<u8>) -> bool {
    &&& forall|i: int| 0 <= i < read_span(f) ==> #[trigger] f[i] < 128
    &&& (f.len() >= NEURON_LEN && f[0] == NEURON_TAG) ==> {
        &&& digits_at(f, 1) && digits_at(f, 5) && digits_at(f, 7)
        &&& digits_at(f, 9) && digits_at(f, 11) && f[13] >= 65
        &&& reads_attention(f) ==> forall|k: int|
            0 <= k < 12 ==> #[trigger] digits_at(f, 15 + 3 * k)
    }
    &&& (f.len() >= SYNAPSE_LEN && f[0] == SYNAPSE_TAG) ==> {
        &&& digits_at(f, 1) && digits_at(f, 3) && digits_at(f, 6) && f[8] >= 65
        &&& digits_at(f, 11) && digits_at(f, 13) && digits_at(f, 15) && f[17] >= 65
        &&& f.len() >= SYNAPSE_ATTENTION_LEN ==> digits_at(f, 19)
    }
}

/// Whether every entry of the genome that is read can be read.
pub open spec fn genome_readable(g: Seq<u8>) -> bool {
    forall|i: int| 0 <= i < entries(g).len() ==> #[trigger] part_readable(entries(g)[i])
}

/// A neuron as read from a genome entry. Levels are the numbers 0 to 675
/// that code a value between two bounds.
#[derive(Clone, Debug)]
pub struct NeuronGene {
    pub id: u32,
    /// The kind letter as written.
    pub code: u8,
    /// The level of the firing threshold.
    pub threshold: usize,
    pub total: u64,
    pub food_ok: u64,
    pub w_death: u64,
    pub module: u8,
    /// The levels of the query, key and value vectors, four each; empty when
    /// the entry does not carry them.
    pub attention: Vec<usize>,
}

/// A synapse as read from a genome entry.
#[derive(Clone, Copy, Debug, PartialEq, Eq, Structural)]
pub struct SynapseGene {
    pub from: u32,
    pub to: u32,
    /// The level of the strength.
    pub strength: usize,
    pub delay: u8,
    pub rec: bool,
    pub modu: bool,
    pub total: u64,
    pub food_ok: u64,
    pub w_death: u64,
    pub module: u8,
    /// The level of the attention weight, when the entry carries one.
    pub attention: Option<usize>,
}

/// One entry read from a genome.
#[derive(Clone, Debug)]
pub enum Gene {
    Neuron(NeuronGene),
    Synapse(SynapseGene),
}

impl NeuronGene {
    /// Whether this is what the neuron entry `f` says.
    pub open spec fn read_from(&self, f: Seq<u8>) -> bool {
        &&& self.id == field_value(f, 1)
        &&& self.code == f[3]
        &&& self.threshold == field_value(f, 5)
        &&& self.total == field_value(f, 7)
        &&& self.food_ok == field_value(f, 9)
        &&& self.w_death == field_value(f, 11)
        &&& self.module == f[13] - 65
        &&& self.attention@ == if reads_attention(f) {
            Seq::new(12, |k: int| field_value(f, 15 + 3 * k) as usize)
        } else {
            Seq::<usize>::empty()
        }
    }
}

impl SynapseGene {
    /// Whether this is what the synapse entry `f` says.
    pub open spec fn read_from(&self, f: Seq<u8>) -> bool {
        &&& self.from == field_value(f, 1)
        &&& self.to == field_value(f, 3)
        &&& self.strength == field_value(f, 6)
        &&& self.delay == f[8] - 65
        &&& self.rec == (f[9] == 82)
        &&& self.modu == (f[10] == 77)
        &&& self.total == field_value(f, 11)
        &&& self.food_ok == field_value(f, 13)
        &&& self.w_death == field_value(f, 15)
        &&& self.module == f[17] - 65
        &&& self.attention == if f.len() >= SYNAPSE_ATTENTION_LEN {
            Some(field_value(f, 19) as usize)
        } else {
            None
        }
    }
}

impl Gene {
    /// Whether this is what the entry `f` says.
    pub open spec fn read_from(&self, f: Seq<u8>) -> bool {
        match self {
            Gene::Neuron(n) => f[0] == NEURON_TAG && n.read_from(f),
            Gene::Synapse(s) => f[0] == SYNAPSE_TAG && s.read_from(f),
        }
    }
}

/// The number written by the two letters of `g` at `i`.
fn read_pair(g: &[u8], i: usize) -> (n: usize)
    requires
        i + 2 <= g@.len(),
        g@[i as int] >= 65,
        g@[i + 1] >= 65,
    ensures
        n == value_of(g@.subrange(i as int, i + 2)),
        n <= 5130,
{
    proof {
        lemma_value_pair(g@.subrange(i as int, i + 2));
    }
    let a = (g[i] - 65) as usize;
    let b = (g[i + 1] - 65) as usize;
    a * 26 + b
}

/// Reads the entry `g[start..k]`: `None` when it is no entry that is read.
fn decode_part(g: &[u8], start: usize, k: usize) -> (r: Option<Gene>)
    requires
        start < k <= g@.len(),
        part_readable(g@.subrange(start as int, k as int)),
    ensures
        match r {
            Some(x) => decodes(g@.subrange(start as int, k as int)) && x.read_from(
                g@.subrange(start as int, k as int),
            ),
            None => !decodes(g@.subrange(start as int, k as int)),
        },
{
    let ghost f = g@.subrange(start as int, k as int);
    let len = k - start;
    let tag = g[start];
    if tag == NEURON_TAG && len >= NEURON_LEN {
        let code = g[start + 3];
        let attention_kind = NType::from(code as char).is_attention_source();
        let mut attention: Vec<usize> = Vec::new();
        if attention_kind && len >= NEURON_ATTENTION_LEN {
            let mut j: usize = 0;
            while j < 12
                invariant
                    j <= 12,
                    start + NEURON_ATTENTION_LEN <= k <= g@.len(),
                    f == g@.subrange(start as int, k as int),
                    reads_attention(f),
                    part_readable(f),
                    f[0] == NEURON_TAG,
                    f.len() >= NEURON_ATTENTION_LEN,
                    attention@.len() == j,
                    forall|m: int| 0 <= m < j ==> #[trigger] attention@[m] == field_value(f, 15 + 3 * m),
                decreases 12 - j,
            {
                assert(digits_at(f, 15 + 3 * j));
                let v = read_pair(g, start + 15 + 3 * j);
                assert(g@.subrange(start + 15 + 3 * j, start + 15 + 3 * j + 2) =~= f.subrange(
                    15 + 3 * j,
                    15 + 3 * j + 2,
                ));
                attention.push(v);
                j = j + 1;
            }
            assert(attention@ =~= Seq::new(12, |m: int| field_value(f, 15 + 3 * m) as usize));
        }
        let id = read_pair(g, start + 1);
        let threshold = read_pair(g, start + 5);
        let total = read_pair(g, start + 7);
        let food_ok = read_pair(g, start + 9);
        let w_death = read_pair(g, start + 11);
        proof {
            assert(g@.subrange(start + 1, start + 3) =~= f.subrange(1, 3));
            assert(g@.subrange(start + 5, start + 7) =~= f.subrange(5, 7));
            assert(g@.subrange(start + 7, start + 9) =~= f.subrange(7, 9));
            assert(g@.subrange(start + 9, start + 11) =~= f.subrange(9, 11));
            assert(g@.subrange(start + 11, start + 13) =~= f.subrange(11, 13));
        }
        let n = NeuronGene {
            id: id as u32,
            code,
            threshold,
            total: total as u64,
            food_ok: food_ok as u64,
            w_death: w_death as u64,
            module: g[start + 13] - 65,
            attention,
        };
        Some(Gene::Neuron(n))
    } else if tag == SYNAPSE_TAG && len >= SYNAPSE_LEN {
        let from = read_pair(g, start + 1);
        let to = read_pair(g, start + 3);
        let strength = read_pair(g, start + 6);
        let total = read_pair(g, start + 11);
        let food_ok = read_pair(g, start + 13);
        let w_death = read_pair(g, start + 15);
        let attention = if len >= SYNAPSE_ATTENTION_LEN {
            let a = read_pair(g, start + 19);
            assert(g@.subrange(start + 19, start + 21) =~= f.subrange(19, 21));
            Some(a)
        } else {
            None
        };
        proof {
            assert(g@.subrange(start + 1, start + 3) =~= f.subrange(1, 3));
            assert(g@.subrange(start + 3, start + 5) =~= f.subrange(3, 5));
            assert(g@.subrange(start + 6, start + 8) =~= f.subrange(6, 8));
            assert(g@.subrange(start + 11, start + 13) =~= f.subrange(11, 13));
            assert(g@.subrange(start + 13, start + 15) =~= f.subrange(13, 15));
            assert(g@.subrange(start + 15, start + 17) =~= f.subrange(15, 17));
        }
        let s = SynapseGene {
            from: from as u32,
            to: to as u32,
            strength,
            delay: g[start + 8] - 65,
            rec: g[start + 9] == 82,
            modu: g[start + 10] == 77,
            total: total as u64,
            food_ok: food_ok as u64,
            w_death: w_death as u64,
            module: g[start + 17] - 65,
            attention,
        };
        Some(Gene::Synapse(s))
    } else {
        None
    }
}

/// Reads the entries of a genome, in order: the neurons and synapses it
/// describes. The genome's bytes are taken without the two-letter length code
/// at the end (when it is longer than two) and cut at each `|`; pieces that
/// are no neuron or synapse entry of sufficient length are skipped.
pub fn parse_genome(gen: &str) -> (genes: Vec<Gene>)
    requires
        genome_readable(vstd::utf8::encode_utf8(gen@)),
    ensures
        genes@.len() == entries(vstd::utf8::encode_utf8(gen@)).len(),
        forall|i: int|
            0 <= i < genes@.len() ==> #[trigger] genes@[i].read_from(
                entries(vstd::utf8::encode_utf8(gen@))[i],
            ),
{
    let g = gen.as_bytes();
    let n = g.len();
    let end: usize = if n > 2 {
        n - 2
    } else {
        n
    };
    let ghost p = payload(g@);
    let ghost all = kept_from(p, 0);
    let ghost mut done: Seq<Seq<u8>> = seq![];
    let mut genes: Vec<Gene> = Vec::new();
    let mut start: usize = 0;
    proof {
        assert(p =~= g@.subrange(0, end as int));
        assert(all =~= done + kept_from(p, 0));
    }
    loop
        invariant_except_break
            start <= end,
            all == done + kept_from(p, start as int),
        invariant
            end <= g@.len(),
            p == g@.subrange(0, end as int),
            all == entries(g@),
            forall|i: int| 0 <= i < all.len() ==> #[trigger] part_readable(all[i]),
            genes@.len() == done.len(),
            forall|i: int| 0 <= i < genes@.len() ==> #[trigger] genes@[i].read_from(done[i]),
        ensures
            all == done,
        decreases end - start,
    {
        let mut k: usize = start;
        while k < end && g[k] != BAR
            invariant
                start <= k <= end,
                end <= g@.len(),
                p == g@.subrange(0, end as int),
                first_bar(p, start as int) == first_bar(p, k as int),
            decreases end - k,
        {
            k = k + 1;
        }
        proof {
            lemma_first_bar(p, start as int);
            assert(first_bar(p, k as int) == k);
        }
        let ghost f = p.subrange(start as int, k as int);
        let ghost here: Seq<Seq<u8>> = if decodes(f) {
            seq![f]
        } else {
            seq![]
        };
        proof {
            assert(g@.subrange(start as int, k as int) =~= f);
            if decodes(f) {
                assert((done + kept_from(p, start as int))[done.len() as int] == f);
            }
        }
        if k > start {
            match decode_part(g, start, k) {
                Some(x) => {
                    genes.push(x);
                },
                None => {},
            }
        }
        proof {
            done = done + here;
        }
        if k >= end {
            proof {
                assert(all =~= done);
            }
            break ;
        }
        proof {
            assert(all =~= done + kept_from(p, k + 1));
        }
        start = k + 1;
    }
    genes
}

/// Whether the two bytes at `i` are both at least `A`.
fn digits_ok(g: &[u8], i: usize) -> (b: bool)
    requires
        i + 2 <= g@.len(),
    ensures
        b == (g@[i as int] >= 65 && g@[i + 1] >= 65),
{
    g[i] >= 65 && g[i + 1] >= 65
}

/// The number of leading bytes of the entry `g[start..k]` that are read.
fn read_span_of(g: &[u8], start: usize, k: usize) -> (n: usize)
    requires
        start < k <= g@.len(),
    ensures
        n == read_span(g@.subrange(start as int, k as int)),
        n <= k - start,
{
    let ghost f = g@.subrange(start as int, k as int);
    let len = k - start;
    let tag = g[start];
    if len >= NEURON_LEN && tag == NEURON_TAG {
        if NType::from(g[start + 3] as char).is_attention_source() && len >= NEURON_ATTENTION_LEN {
            NEURON_ATTENTION_LEN
        } else {
            NEURON_LEN
        }
    } else if len >= SYNAPSE_LEN && tag == SYNAPSE_TAG {
        if len >= SYNAPSE_ATTENTION_LEN {
            SYNAPSE_ATTENTION_LEN
        } else {
            SYNAPSE_LEN
        }
    } else {
        0
    }
}

/// Whether the entry `g[start..k]` can be read.
fn part_is_readable(g: &[u8], start: usize, k: usize) -> (b: bool)
    requires
        start < k <= g@.len(),
    ensures
        b == part_readable(g@.subrange(start as int, k as int)),
{
    let ghost f = g@.subrange(start as int, k as int);
    let len = k - start;
    let span = read_span_of(g, start, k);
    let mut ascii = true;
    let mut i: usize = 0;
    while i < span
        invariant
            span == read_span(f),
            i <= span <= k - start,
            start < k <= g@.len(),
            f == g@.subrange(start as int, k as int),
            ascii == forall|m: int| 0 <= m < i ==> #[trigger] f[m] < 128,
        decreases span - i,
    {
        proof {
            assert(f[i as int] == g@[start + i]);
            if ascii && g[start + i] < 128 {
                assert forall|m: int| 0 <= m < i + 1 implies #[trigger] f[m] < 128 by {}
            }
        }
        ascii = ascii && g[start + i] < 128;
        i = i + 1;
    }
    if !ascii {
        return false;
    }
    let tag = g[start];
    if tag == NEURON_TAG && len >= NEURON_LEN {
        let fixed = digits_ok(g, start + 1) && digits_ok(g, start + 5) && digits_ok(g, start + 7)
            && digits_ok(g, start + 9) && digits_ok(g, start + 11) && g[start + 13] >= 65;
        let code = g[start + 3];
        let mut vectors = true;
        if NType::from(code as char).is_attention_source() && len >= NEURON_ATTENTION_LEN {
            let mut j: usize = 0;
            while j < 12
                invariant
                    j <= 12,
                    start + NEURON_ATTENTION_LEN <= k <= g@.len(),
                    f == g@.subrange(start as int, k as int),
                    vectors == forall|m: int| 0 <= m < j ==> #[trigger] digits_at(f, 15 + 3 * m),
                decreases 12 - j,
            {
                let ok = digits_ok(g, start + 15 + 3 * j);
                proof {
                    assert(ok == digits_at(f, 15 + 3 * j));
                    if vectors && ok {
                        assert forall|m: int| 0 <= m < j + 1 implies #[trigger] digits_at(
                            f,
                            15 + 3 * m,
                        ) by {}
                    }
                }
                vectors = vectors && ok;
                j = j + 1;
            }
        }
        proof {
            assert(fixed == (digits_at(f, 1) && digits_at(f, 5) && digits_at(f, 7) && digits_at(f, 9)
                && digits_at(f, 11) && f[13] >= 65));
        }
        fixed && vectors
    } else if tag == SYNAPSE_TAG && len >= SYNAPSE_LEN {
        let fixed = digits_ok(g, start + 1) && digits_ok(g, start + 3) && digits_ok(g, start + 6)
            && g[start + 8] >= 65 && digits_ok(g, start + 11) && digits_ok(g, start + 13)
            && digits_ok(g, start + 15) && g[start + 17] >= 65;
        let weight = len < SYNAPSE_ATTENTION_LEN || digits_ok(g, start + 19);
        proof {
            assert(fixed == (digits_at(f, 1) && digits_at(f, 3) && digits_at(f, 6) && f[8] >= 65
                && digits_at(f, 11) && digits_at(f, 13) && digits_at(f, 15) && f[17] >= 65));
        }
        fixed && weight
    } else {
        true
    }
}

/// Whether `parse_genome` can read the text: in every entry that is read, the
/// bytes read are plain ASCII and the letters read as digits are at least `A`.
pub fn genome_is_readable(gen: &str) -> (b: bool)
    ensures
        b == genome_readable(vstd::utf8::encode_utf8(gen@)),
{
    let g = gen.as_bytes();
    let n = g.len();
    let end: usize = if n > 2 {
        n - 2
    } else {
        n
    };
    let ghost p = payload(g@);
    let ghost all = kept_from(p, 0);
    let ghost mut done: Seq<Seq<u8>> = seq![];
    let mut ok = true;
    let mut start: usize = 0;
    proof {
        assert(p =~= g@.subrange(0, end as int));
        assert(all =~= done + kept_from(p, 0));
    }
    loop
        invariant_except_break
            start <= end,
            all == done + kept_from(p, start as int),
        invariant
            end <= g@.len(),
            p == g@.subrange(0, end as int),
            all == entries(g@),
            ok == forall|i: int| 0 <= i < done.len() ==> #[trigger] part_readable(done[i]),
        ensures
            all == done,
        decreases end - start,
    {
        let mut k: usize = start;
        while k < end && g[k] != BAR
            invariant
                start <= k <= end,
                end <= g@.len(),
                p == g@.subrange(0, end as int),
                first_bar(p, start as int) == first_bar(p, k as int),
            decreases end - k,
        {
            k = k + 1;
        }
        proof {
            lemma_first_bar(p, start as int);
            assert(first_bar(p, k as int) == k);
        }
        let ghost f = p.subrange(start as int, k as int);
        let ghost here: Seq<Seq<u8>> = if decodes(f) {
            seq![f]
        } else {
            seq![]
        };
        proof {
            assert(g@.subrange(start as int, k as int) =~= f);
        }
        if k > start {
            let r = part_is_readable(g, start, k);
            proof {
                let d2 = done + here;
                if ok && r {
                    assert forall|i: int| 0 <= i < d2.len() implies #[trigger] part_readable(d2[i]) by {
                        if i >= done.len() {
                            assert(d2[i] == f);
                        } else {
                            assert(d2[i] == done[i]);
                        }
                    }
                }
                if !r && decodes(f) {
                    assert(d2[done.len() as int] == f);
                }
                if !ok {
                    let i = choose|i: int| 0 <= i < done.len() && !part_readable(done[i]);
                    assert(d2[i] == done[i]);
                }
            }
            ok = ok && r;
        }
        proof {
            done = done + here;
        }
        if k >= end {
            proof {
                assert(all =~= done);
            }
            break ;
        }
        proof {
            assert(all =~= done + kept_from(p, k + 1));
        }
        start = k + 1;
    }
    ok
}

} // verus!
