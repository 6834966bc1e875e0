//! The tracing core: typed field capture, per-span state with busy/idle
//! accounting, structured JSON records for spans and events, and the
//! process-wide table from span handles to trace identifiers.

use crate::util::id_gen::{gen_id, generated_from, Generator};
use crate::util::radix32::encode_spec;
use crate::util::text::{
    chars_cmp_lt, chars_eq, chars_vec, dec_digits, dec_str, digit_char, digit_char_exec, json_str,
    push_chars, push_dec_i64, push_dec_u128, push_dec_u64, push_json_str, push_str_chars, seq_lt,
    string_from_chars,
};
use vstd::prelude::*;

verus! {

broadcast use vstd::std_specs::hash::group_hash_axioms;

/// A captured field value at the specification level.
#[verifier::ext_equal]
pub enum FieldData {
    SInt(i64),
    UInt(u64),
    Bool(bool),
    Text(Seq<char>),
    Float(Seq<char>),
    Null,
}

/// A captured field value: one of the primitive kinds a call site can record.
/// Large integers, strings and debug-formatted values are held as text;
/// floating-point values arrive pre-rendered as JSON number text, or stand as
/// `Null` when they have no JSON number form.
pub enum FieldValue {
    SInt(i64),
    UInt(u64),
    Bool(bool),
    Text(Vec<char>),
    Float(Vec<char>),
    Null,
}

impl View for FieldValue {
    type V = FieldData;

    open spec fn view(&self) -> FieldData {
        match self {
            FieldValue::SInt(v) => FieldData::SInt(*v),
            FieldValue::UInt(v) => FieldData::UInt(*v),
            FieldValue::Bool(v) => FieldData::Bool(*v),
            FieldValue::Text(v) => FieldData::Text(v@),
            FieldValue::Float(v) => FieldData::Float(v@),
            FieldValue::Null => FieldData::Null,
        }
    }
}

/// One field entry at the specification level: a key and a value.
pub type FieldEntry = (Seq<char>, FieldData);

/// Whether a sequence of entries is strictly sorted by key.
pub open spec fn entries_sorted(s: Seq<FieldEntry>) -> bool {
    forall|i: int, j: int| 0 <= i < j < s.len() ==> seq_lt(#[trigger] s[i].0, #[trigger] s[j].0)
}

/// Where a new entry lands in a sorted sequence: before the first greater
/// key, in place of an equal key, or at the end.
pub open spec fn sorted_insert(s: Seq<FieldEntry>, k: Seq<char>, v: FieldData) -> Seq<FieldEntry>
    decreases s.len(),
{
    if s.len() == 0 {
        seq![(k, v)]
    } else if seq_lt(k, s[0].0) {
        seq![(k, v)] + s
    } else if k == s[0].0 {
        seq![(k, v)] + s.drop_first()
    } else {
        seq![s[0]] + sorted_insert(s.drop_first(), k, v)
    }
}

/// An ordered-by-key mapping from field names to captured values.
pub struct FieldMap {
    entries: Vec<(Vec<char>, FieldValue)>,
}

impl View for FieldMap {
    type V = Seq<FieldEntry>;

    closed spec fn view(&self) -> Seq<FieldEntry> {
        self.entries@.map_values(|e: (Vec<char>, FieldValue)| (e.0@, e.1@))
    }
}

impl FieldMap {
    /// The mapping's invariant: keys strictly sorted, hence unique.
    pub open spec fn wf(&self) -> bool {
        entries_sorted(self@)
    }

    /// An empty mapping.
    pub fn new() -> (m: FieldMap)
        ensures
            m@ =~= Seq::<FieldEntry>::empty(),
            m.wf(),
    {
        FieldMap { entries: Vec::new() }
    }

    /// How many fields are held.
    pub fn len(&self) -> (n: usize)
        ensures
            n == self@.len(),
    {
        self.entries.len()
    }

    /// Adds a field, overwriting the value of an equal key.
    #[verifier::loop_isolation(false)]
    pub fn insert(&mut self, key: Vec<char>, value: FieldValue)
        requires
            old(self).wf(),
        ensures
            final(self)@ == sorted_insert(old(self)@, key@, value@),
            final(self).wf(),
    {
        proof {
            lemma_sorted_insert_wf(self@, key@, value@);
        }
        let ghost orig = old(self)@;
        proof {
            assert(orig.take(0) =~= Seq::<FieldEntry>::empty());
            assert(orig.skip(0) =~= orig);
            assert(orig.take(0) + sorted_insert(orig.skip(0), key@, value@) =~= sorted_insert(
                orig,
                key@,
                value@,
            ));
        }
        let mut i: usize = 0;
        loop
            invariant
                i <= self@.len(),
                self@ == orig,
                entries_sorted(orig),
                forall|j: int| 0 <= j < i ==> seq_lt(#[trigger] orig[j].0, key@),
                sorted_insert(orig, key@, value@) == orig.take(i as int) + sorted_insert(
                    orig.skip(i as int),
                    key@,
                    value@,
                ),
            decreases self@.len() - i,
        {
            if i == self.entries.len() {
                proof {
                    assert(orig.skip(i as int) =~= Seq::<FieldEntry>::empty());
                    assert(sorted_insert(orig.skip(i as int), key@, value@) =~= seq![
                        (key@, value@),
                    ]);
                }
                self.entries.push((key, value));
                proof {
                    assert(self@ =~= orig + seq![(key@, value@)]);
                    assert(orig.take(orig.len() as int) =~= orig);
                    assert(self@ =~= orig.take(i as int) + sorted_insert(
                        orig.skip(i as int),
                        key@,
                        value@,
                    ));
                    assert(self@ =~= sorted_insert(orig, key@, value@));
                }
                return ;
            }
            let cur_lt_key = chars_cmp_lt(&self.entries[i].0, &key);
            if !cur_lt_key {
                let key_lt_cur = chars_cmp_lt(&key, &self.entries[i].0);
                proof {
                    assert(orig.skip(i as int)[0] == orig[i as int]);
                }
                if key_lt_cur {
                    self.entries.insert(i, (key, value));
                    proof {
                        assert(sorted_insert(orig.skip(i as int), key@, value@) =~= seq![
                            (key@, value@),
                        ] + orig.skip(i as int));
                        assert(self@ =~= orig.take(i as int) + (seq![(key@, value@)] + orig.skip(
                            i as int,
                        )));
                        assert(self@ =~= sorted_insert(orig, key@, value@));
                    }
                } else {
                    proof {
                        lemma_seq_cmp_total(key@, orig[i as int].0);
                        assert(key@ == orig[i as int].0);
                        assert(sorted_insert(orig.skip(i as int), key@, value@) =~= seq![
                            (key@, value@),
                        ] + orig.skip(i as int).drop_first());
                        assert(orig.skip(i as int).drop_first() =~= orig.skip(i + 1));
                    }
                    self.entries.set(i, (key, value));
                    proof {
                        assert(self@ =~= orig.take(i as int) + (seq![(key@, value@)] + orig.skip(
                            i + 1,
                        )));
                        assert(self@ =~= sorted_insert(orig, key@, value@));
                    }
                }
                return ;
            }
            proof {
                assert(orig.skip(i as int)[0] == orig[i as int]);
                lemma_seq_lt_irrefl(orig[i as int].0, key@);
                assert(sorted_insert(orig.skip(i as int), key@, value@) =~= seq![orig[i as int]]
                    + sorted_insert(orig.skip(i as int).drop_first(), key@, value@));
                assert(orig.skip(i as int).drop_first() =~= orig.skip(i + 1));
                assert(orig.take(i as int) + seq![orig[i as int]] =~= orig.take(i + 1));
                assert(orig.take(i as int) + (seq![orig[i as int]] + sorted_insert(
                    orig.skip(i + 1),
                    key@,
                    value@,
                )) =~= orig.take(i + 1) + sorted_insert(orig.skip(i + 1), key@, value@));
            }
            i = i + 1;
        }
    }

    /// Adds every field of `other`, in key order, overwriting on collision.
    pub fn merge_from(&mut self, other: &FieldMap)
        requires
            old(self).wf(),
        ensures
            final(self)@ == merge_entries(old(self)@, other@),
            final(self).wf(),
    {
        let mut i: usize = 0;
        while i < other.entries.len()
            invariant
                i <= other@.len(),
                self.wf(),
                self@ == merge_entries(old(self)@, other@.take(i as int)),
            decreases other@.len() - i,
        {
            let (k, v) = clone_entry(&other.entries[i]);
            proof {
                let t = other@.take(i + 1);
                assert(t.drop_last() =~= other@.take(i as int));
                assert(t.last() == other@[i as int]);
            }
            self.insert(k, v);
            i = i + 1;
        }
        proof {
            assert(other@.take(other@.len() as int) =~= other@);
        }
    }
}

/// The result of adding each entry of `adds`, in order, to `base`.
pub open spec fn merge_entries(base: Seq<FieldEntry>, adds: Seq<FieldEntry>) -> Seq<FieldEntry>
    decreases adds.len(),
{
    if adds.len() == 0 {
        base
    } else {
        sorted_insert(merge_entries(base, adds.drop_last()), adds.last().0, adds.last().1)
    }
}

fn clone_chars(v: &Vec<char>) -> (r: Vec<char>)
    ensures
        r@ == v@,
{
    let mut r: Vec<char> = Vec::new();
    push_chars(&mut r, v);
    r
}

fn clone_entry(e: &(Vec<char>, FieldValue)) -> (r: (Vec<char>, FieldValue))
    ensures
        r.0@ == e.0@,
        r.1@ == e.1@,
{
    let k = clone_chars(&e.0);
    let v = match &e.1 {
        FieldValue::SInt(x) => FieldValue::SInt(*x),
        FieldValue::UInt(x) => FieldValue::UInt(*x),
        FieldValue::Bool(x) => FieldValue::Bool(*x),
        FieldValue::Text(x) => FieldValue::Text(clone_chars(x)),
        FieldValue::Float(x) => FieldValue::Float(clone_chars(x)),
        FieldValue::Null => FieldValue::Null,
    };
    (k, v)
}

/// A sorted insert keeps the entries sorted.
proof fn lemma_sorted_insert_wf(s: Seq<FieldEntry>, k: Seq<char>, v: FieldData)
    requires
        entries_sorted(s),
    ensures
        entries_sorted(sorted_insert(s, k, v)),
    decreases s.len(),
{
    if s.len() == 0 {
    } else if seq_lt(k, s[0].0) {
        let r = seq![(k, v)] + s;
        assert forall|i: int, j: int| 0 <= i < j < r.len() implies seq_lt(
            #[trigger] r[i].0,
            #[trigger] r[j].0,
        ) by {
            if i == 0 {
                if j > 1 {
                    assert(seq_lt(s[0].0, s[j - 1].0));
                    lemma_seq_lt_trans(k, s[0].0, s[j - 1].0);
                }
            } else {
                assert(seq_lt(s[i - 1].0, s[j - 1].0));
            }
        }
    } else if k == s[0].0 {
        let r = seq![(k, v)] + s.drop_first();
        assert forall|i: int, j: int| 0 <= i < j < r.len() implies seq_lt(
            #[trigger] r[i].0,
            #[trigger] r[j].0,
        ) by {
            if i == 0 {
                assert(seq_lt(s[0].0, s[j].0));
            } else {
                assert(seq_lt(s[i].0, s[j].0));
            }
        }
    } else {
        lemma_seq_cmp_total(k, s[0].0);
        assert(forall|i: int, j: int|
            0 <= i < j < s.drop_first().len() ==> seq_lt(
                #[trigger] s.drop_first()[i].0,
                #[trigger] s.drop_first()[j].0,
            ));
        lemma_sorted_insert_wf(s.drop_first(), k, v);
        let r = seq![s[0]] + sorted_insert(s.drop_first(), k, v);
        lemma_sorted_insert_keys(s.drop_first(), k, v);
        assert forall|i: int, j: int| 0 <= i < j < r.len() implies seq_lt(
            #[trigger] r[i].0,
            #[trigger] r[j].0,
        ) by {
            if i == 0 {
                let rk = sorted_insert(s.drop_first(), k, v)[j - 1].0;
                if rk == k {
                } else {
                    let m = choose|m: int|
                        0 <= m < s.drop_first().len() && s.drop_first()[m].0 == rk;
                    assert(seq_lt(s[0].0, s[m + 1].0));
                }
            }
        }
    }
}

/// Every key of a sorted insert is the new key or one of the old keys.
proof fn lemma_sorted_insert_keys(s: Seq<FieldEntry>, k: Seq<char>, v: FieldData)
    ensures
        forall|j: int|
            0 <= j < sorted_insert(s, k, v).len() ==> (#[trigger] sorted_insert(s, k, v)[j].0 == k
                || exists|m: int| 0 <= m < s.len() && s[m].0 == sorted_insert(s, k, v)[j].0),
    decreases s.len(),
{
    if s.len() == 0 {
    } else if seq_lt(k, s[0].0) {
    } else if k == s[0].0 {
        assert forall|j: int| 0 <= j < sorted_insert(s, k, v).len() implies (
        #[trigger] sorted_insert(s, k, v)[j].0 == k || exists|m: int|
            0 <= m < s.len() && s[m].0 == sorted_insert(s, k, v)[j].0) by {
            if j > 0 {
                assert(s[j].0 == sorted_insert(s, k, v)[j].0);
            }
        }
    } else {
        lemma_sorted_insert_keys(s.drop_first(), k, v);
        assert forall|j: int| 0 <= j < sorted_insert(s, k, v).len() implies (
        #[trigger] sorted_insert(s, k, v)[j].0 == k || exists|m: int|
            0 <= m < s.len() && s[m].0 == sorted_insert(s, k, v)[j].0) by {
            if j == 0 {
                assert(s[0].0 == sorted_insert(s, k, v)[0].0);
            } else {
                let t = sorted_insert(s.drop_first(), k, v);
                assert(sorted_insert(s, k, v)[j] == t[j - 1]);
                if t[j - 1].0 == k {
                } else {
                    let m = choose|m: int|
                        0 <= m < s.drop_first().len() && s.drop_first()[m].0 == t[j - 1].0;
                    assert(s[m + 1].0 == t[j - 1].0);
                }
            }
        }
    }
}

/// A lexicographically smaller sequence is neither greater nor equal.
proof fn lemma_seq_lt_irrefl(a: Seq<char>, b: Seq<char>)
    requires
        seq_lt(a, b),
    ensures
        !seq_lt(b, a),
        a != b,
    decreases a.len(),
{
    if b.len() == 0 {
    } else if a.len() == 0 {
        assert(a.len() != b.len());
    } else if (a[0] as u32) < (b[0] as u32) {
        if a == b {
            assert((a[0] as u32) == (b[0] as u32));
        }
    } else {
        assert((a[0] as u32) == (b[0] as u32));
        lemma_seq_lt_irrefl(a.drop_first(), b.drop_first());
        if a == b {
            assert(a.drop_first() == b.drop_first());
        }
    }
}

/// Lexicographic order on character sequences is transitive.
proof fn lemma_seq_lt_trans(a: Seq<char>, b: Seq<char>, c: Seq<char>)
    requires
        seq_lt(a, b),
        seq_lt(b, c),
    ensures
        seq_lt(a, c),
    decreases a.len(),
{
    if c.len() == 0 {
    } else if a.len() == 0 {
    } else {
        if (a[0] as u32) < (b[0] as u32) {
            if (b[0] as u32) < (c[0] as u32) {
            } else {
                assert((b[0] as u32) == (c[0] as u32));
            }
        } else {
            assert((a[0] as u32) == (b[0] as u32));
            if (b[0] as u32) < (c[0] as u32) {
            } else {
                assert((b[0] as u32) == (c[0] as u32));
                lemma_seq_lt_trans(a.drop_first(), b.drop_first(), c.drop_first());
            }
        }
    }
}

/// Two character sequences are ordered one way, ordered the other way, or
/// equal.
proof fn lemma_seq_cmp_total(a: Seq<char>, b: Seq<char>)
    ensures
        seq_lt(a, b) || seq_lt(b, a) || a == b,
    decreases a.len(),
{
    if a.len() == 0 {
        if b.len() == 0 {
            assert(a =~= b);
        }
    } else if b.len() == 0 {
    } else {
        if (a[0] as u32) == (b[0] as u32) {
            vstd::utf8::char_u32_cast(a[0], a[0] as u32);
            vstd::utf8::char_u32_cast(b[0], b[0] as u32);
            assert(a[0] == b[0]);
            lemma_seq_cmp_total(a.drop_first(), b.drop_first());
            if a.drop_first() == b.drop_first() {
                assert(a =~= seq![a[0]] + a.drop_first());
                assert(b =~= seq![b[0]] + b.drop_first());
            }
        }
    }
}

/// Whether a character is a decimal digit.
pub open spec fn is_digit(c: char) -> bool {
    48 <= c as u32 <= 57
}

/// One step of the JSON number automaton. States: 0 at the start, 1 after a
/// minus sign, 2 after a leading zero, 3 inside a nonzero integer part, 4
/// after the decimal point, 5 inside the fraction, 6 after the exponent
/// marker, 7 after the exponent sign, 8 inside the exponent. -1 rejects.
pub open spec fn num_step(st: int, c: char) -> int {
    let u = c as u32;
    if st == 0 {
        if u == 45 {
            1
        } else if u == 48 {
            2
        } else if 49 <= u <= 57 {
            3
        } else {
            -1
        }
    } else if st == 1 {
        if u == 48 {
            2
        } else if 49 <= u <= 57 {
            3
        } else {
            -1
        }
    } else if st == 2 || st == 3 {
        if st == 3 && 48 <= u <= 57 {
            3
        } else if u == 46 {
            4
        } else if u == 101 || u == 69 {
            6
        } else if st == 2 && 48 <= u <= 57 {
            -1
        } else {
            -1
        }
    } else if st == 4 {
        if 48 <= u <= 57 {
            5
        } else {
            -1
        }
    } else if st == 5 {
        if 48 <= u <= 57 {
            5
        } else if u == 101 || u == 69 {
            6
        } else {
            -1
        }
    } else if st == 6 {
        if u == 43 || u == 45 {
            7
        } else if 48 <= u <= 57 {
            8
        } else {
            -1
        }
    } else if st == 7 || st == 8 {
        if 48 <= u <= 57 {
            8
        } else {
            -1
        }
    } else {
        -1
    }
}

/// Whether a state of the JSON number automaton accepts at the end of input.
pub open spec fn num_accepting(st: int) -> bool {
    st == 2 || st == 3 || st == 5 || st == 8
}

/// Whether the automaton accepts the rest of the input from a state.
pub open spec fn num_accepts_from(s: Seq<char>, st: int) -> bool
    decreases s.len(),
{
    if st == -1 {
        false
    } else if s.len() == 0 {
        num_accepting(st)
    } else {
        num_accepts_from(s.drop_first(), num_step(st, s[0]))
    }
}

/// Whether a text is a JSON number.
pub open spec fn is_json_number(s: Seq<char>) -> bool {
    num_accepts_from(s, 0)
}

/// Checks a text against the JSON number grammar.
#[verifier::loop_isolation(false)]
pub fn check_json_number(s: &Vec<char>) -> (r: bool)
    ensures
        r == is_json_number(s@),
{
    let mut st: i32 = 0;
    let mut i: usize = 0;
    proof {
        assert(s@.skip(0) =~= s@);
    }
    while i < s.len()
        invariant
            i <= s@.len(),
            -1 <= st <= 8,
            is_json_number(s@) == num_accepts_from(s@.skip(i as int), st as int),
        decreases s@.len() - i,
    {
        let c = s[i];
        let u = c as u32;
        proof {
            assert(s@.skip(i as int)[0] == s@[i as int]);
            assert(s@.skip(i as int).drop_first() =~= s@.skip(i + 1));
        }
        let next: i32 = if st == 0 {
            if u == 45 {
                1
            } else if u == 48 {
                2
            } else if 49 <= u && u <= 57 {
                3
            } else {
                -1
            }
        } else if st == 1 {
            if u == 48 {
                2
            } else if 49 <= u && u <= 57 {
                3
            } else {
                -1
            }
        } else if st == 2 || st == 3 {
            if st == 3 && 48 <= u && u <= 57 {
                3
            } else if u == 46 {
                4
            } else if u == 101 || u == 69 {
                6
            } else {
                -1
            }
        } else if st == 4 {
            if 48 <= u && u <= 57 {
                5
            } else {
                -1
            }
        } else if st == 5 {
            if 48 <= u && u <= 57 {
                5
            } else if u == 101 || u == 69 {
                6
            } else {
                -1
            }
        } else if st == 6 {
            if u == 43 || u == 45 {
                7
            } else if 48 <= u && u <= 57 {
                8
            } else {
                -1
            }
        } else if st == 7 || st == 8 {
            if 48 <= u && u <= 57 {
                8
            } else {
                -1
            }
        } else {
            -1
        };
        proof {
            if st != -1 {
                assert(next == num_step(st as int, c));
            } else {
                assert(next == -1);
            }
        }
        st = next;
        i = i + 1;
    }
    proof {
        assert(s@.skip(s@.len() as int) =~= Seq::<char>::empty());
    }
    st == 2 || st == 3 || st == 5 || st == 8
}

/// Captures typed values recorded by a call site into an ordered field
/// mapping, diverting a 128-bit value recorded under the reserved name
/// `trace_id` into an explicit trace identifier instead of a field. Any
/// recorded value seeds, zero included.
pub struct JsonVisitor {
    pub fields: FieldMap,
    pub trace_id: Option<u128>,
}

impl JsonVisitor {
    /// A visitor with no fields and no explicit trace identifier.
    pub fn new() -> (v: JsonVisitor)
        ensures
            v.fields@ =~= Seq::<FieldEntry>::empty(),
            v.fields.wf(),
            v.trace_id is None,
    {
        JsonVisitor { fields: FieldMap::new(), trace_id: None }
    }

    /// Records a signed integer field.
    pub fn record_i64(&mut self, name: &str, value: i64)
        requires
            old(self).fields.wf(),
        ensures
            final(self).fields@ == sorted_insert(
                old(self).fields@,
                name@,
                FieldData::SInt(value),
            ),
            final(self).fields.wf(),
            final(self).trace_id == old(self).trace_id,
    {
        self.fields.insert(chars_vec(name), FieldValue::SInt(value));
    }

    /// Records an unsigned integer field.
    pub fn record_u64(&mut self, name: &str, value: u64)
        requires
            old(self).fields.wf(),
        ensures
            final(self).fields@ == sorted_insert(
                old(self).fields@,
                name@,
                FieldData::UInt(value),
            ),
            final(self).fields.wf(),
            final(self).trace_id == old(self).trace_id,
    {
        self.fields.insert(chars_vec(name), FieldValue::UInt(value));
    }

    /// Records a boolean field.
    pub fn record_bool(&mut self, name: &str, value: bool)
        requires
            old(self).fields.wf(),
        ensures
            final(self).fields@ == sorted_insert(
                old(self).fields@,
                name@,
                FieldData::Bool(value),
            ),
            final(self).fields.wf(),
            final(self).trace_id == old(self).trace_id,
    {
        self.fields.insert(chars_vec(name), FieldValue::Bool(value));
    }

    /// Records a string field.
    pub fn record_str(&mut self, name: &str, value: &str)
        requires
            old(self).fields.wf(),
        ensures
            final(self).fields@ == sorted_insert(
                old(self).fields@,
                name@,
                FieldData::Text(value@),
            ),
            final(self).fields.wf(),
            final(self).trace_id == old(self).trace_id,
    {
        self.fields.insert(chars_vec(name), FieldValue::Text(chars_vec(value)));
    }

    /// Records a value already rendered by its debug form.
    pub fn record_debug(&mut self, name: &str, rendered: &str)
        requires
            old(self).fields.wf(),
        ensures
            final(self).fields@ == sorted_insert(
                old(self).fields@,
                name@,
                FieldData::Text(rendered@),
            ),
            final(self).fields.wf(),
            final(self).trace_id == old(self).trace_id,
    {
        self.fields.insert(chars_vec(name), FieldValue::Text(chars_vec(rendered)));
    }

    /// Records a floating-point field from its rendered text: the text stands
    /// as a JSON number when it has that form, else the field is null, as for
    /// a value with no JSON number form.
    pub fn record_f64_text(&mut self, name: &str, rendered: &str)
        requires
            old(self).fields.wf(),
        ensures
            final(self).fields@ == sorted_insert(
                old(self).fields@,
                name@,
                if is_json_number(rendered@) {
                    FieldData::Float(rendered@)
                } else {
                    FieldData::Null
                },
            ),
            final(self).fields.wf(),
            final(self).trace_id == old(self).trace_id,
    {
        let text = chars_vec(rendered);
        if check_json_number(&text) {
            self.fields.insert(chars_vec(name), FieldValue::Float(text));
        } else {
            self.fields.insert(chars_vec(name), FieldValue::Null);
        }
    }

    /// Records a 128-bit unsigned field. The reserved name `trace_id` is
    /// diverted: it seeds the explicit trace identifier, whatever its value,
    /// and adds no field. Any other 128-bit value becomes a decimal text
    /// field.
    pub fn record_u128(&mut self, name: &str, value: u128)
        requires
            old(self).fields.wf(),
        ensures
            final(self).fields.wf(),
            if name@ == "trace_id"@ {
                final(self).trace_id == Some(value) && final(self).fields@ == old(self).fields@
            } else {
                final(self).trace_id == old(self).trace_id && final(self).fields@ == sorted_insert(
                    old(self).fields@,
                    name@,
                    FieldData::Text(dec_digits(value as int)),
                )
            },
    {
        let name_chars = chars_vec(name);
        let reserved = chars_vec("trace_id");
        if chars_eq(&name_chars, &reserved) {
            self.trace_id = Some(value);
        } else {
            let mut text: Vec<char> = Vec::new();
            push_dec_u128(&mut text, value);
            self.fields.insert(name_chars, FieldValue::Text(text));
        }
    }

    /// The explicitly recorded trace identifier, if one was recorded.
    pub fn explicit_trace_id(&self) -> (r: Option<u128>)
        ensures
            r == self.trace_id,
    {
        self.trace_id
    }

    /// Hands the captured fields over.
    pub fn into_fields(self) -> (m: FieldMap)
        ensures
            m == self.fields,
    {
        self.fields
    }
}

/// Per-span state: identifiers, timestamps, accumulated busy time and the
/// captured fields. Timestamps are process-local monotonic nanoseconds
/// supplied by the caller; the ghost `last_seen` records the latest one, so
/// that the accounting invariant can be carried from call to call.
pub struct Storage {
    pub trace_id: u128,
    pub span_id: u128,
    pub parent_id: Option<u128>,
    pub created_at: u128,
    pub entered_at: Option<u128>,
    pub busy_time: u128,
    pub fields: FieldMap,
    pub last_seen: Ghost<u128>,
}

impl Storage {
    /// The accounting invariant: busy time never exceeds the time elapsed
    /// since creation, and an open busy window started after creation.
    pub open spec fn wf(&self) -> bool {
        &&& self.fields.wf()
        &&& self.created_at <= self.last_seen@
        &&& self.busy_time <= self.last_seen@ - self.created_at
        &&& match self.entered_at {
            Some(e) => self.created_at <= e <= self.last_seen@ && self.busy_time <= e
                - self.created_at,
            None => true,
        }
    }

    /// Creates the state of a new span: the trace identifier comes from the
    /// parent if one is open, else from the caller if one was supplied, else
    /// freshly from the generator; the span identifier is always fresh; the
    /// parent identifier is the parent's span identifier, if any.
    pub fn new_span(
        g: &mut Generator,
        parent: Option<&Storage>,
        explicit_trace_id: Option<u128>,
        fields: FieldMap,
        now: u128,
    ) -> (s: Storage)
        requires
            old(g).wf(),
            fields.wf(),
        ensures
            final(g).wf(),
            final(g).mac == old(g).mac,
            s.wf(),
            s.created_at == now,
            s.entered_at is None,
            s.busy_time == 0,
            s.last_seen@ == now,
            s.fields@ == fields@,
            match parent {
                Some(p) => {
                    &&& s.trace_id == p.trace_id
                    &&& s.parent_id == Some(p.span_id)
                    &&& generated_from(*old(g), *final(g), s.span_id)
                },
                None => {
                    &&& s.parent_id is None
                    &&& match explicit_trace_id {
                        Some(t) => {
                            &&& s.trace_id == t
                            &&& generated_from(*old(g), *final(g), s.span_id)
                        },
                        None => exists|gm: Generator|
                            {
                                &&& #[trigger] generated_from(*old(g), gm, s.trace_id)
                                &&& generated_from(gm, *final(g), s.span_id)
                            },
                    }
                },
            },
    {
        let ghost g0 = *old(g);
        let trace_id: u128;
        let parent_id: Option<u128>;
        let mut fresh_trace = false;
        match parent {
            None => {
                match explicit_trace_id {
                    Some(t) => {
                        trace_id = t;
                    },
                    None => {
                        trace_id = gen_id(g);
                        fresh_trace = true;
                    },
                }
                parent_id = None;
            },
            Some(p) => {
                trace_id = p.trace_id;
                parent_id = Some(p.span_id);
            },
        }
        let ghost gm = *g;
        let span_id = gen_id(g);
        proof {
            assert(*final(g) == *g);
            if fresh_trace {
                assert(generated_from(g0, gm, trace_id) && generated_from(gm, *g, span_id));
            } else {
                assert(gm == g0);
                assert(generated_from(g0, *g, span_id));
            }
        }
        let s = Storage {
            trace_id,
            span_id,
            parent_id,
            created_at: now,
            entered_at: None,
            busy_time: 0,
            fields,
            last_seen: Ghost(now),
        };
        proof {
            if fresh_trace {
                assert(generated_from(*old(g), gm, s.trace_id));
                assert(generated_from(gm, *final(g), s.span_id));
            }
        }
        s
    }

    /// Merges newly recorded fields into the span's fields, overwriting on
    /// key collision.
    pub fn record(&mut self, values: &FieldMap)
        requires
            old(self).wf(),
        ensures
            final(self).wf(),
            final(self).fields@ == merge_entries(old(self).fields@, values@),
            final(self).trace_id == old(self).trace_id,
            final(self).span_id == old(self).span_id,
            final(self).parent_id == old(self).parent_id,
            final(self).created_at == old(self).created_at,
            final(self).entered_at == old(self).entered_at,
            final(self).busy_time == old(self).busy_time,
            final(self).last_seen == old(self).last_seen,
    {
        self.fields.merge_from(values);
    }

    /// Opens a busy-time window.
    pub fn enter(&mut self, now: u128)
        requires
            old(self).wf(),
            old(self).entered_at is None,
            now >= old(self).last_seen@,
        ensures
            final(self).wf(),
            *final(self) == (Storage {
                entered_at: Some(now),
                last_seen: Ghost(now),
                ..*old(self)
            }),
    {
        self.entered_at = Some(now);
        proof {
            self.last_seen@ = now;
        }
    }

    /// Closes the open busy-time window and adds its length to the span's
    /// busy time. Calling this without an open window is a usage error ruled
    /// out by the precondition.
    pub fn exit(&mut self, now: u128)
        requires
            old(self).wf(),
            old(self).entered_at is Some,
            now >= old(self).last_seen@,
        ensures
            final(self).wf(),
            *final(self) == (Storage {
                entered_at: None,
                busy_time: (old(self).busy_time + (now - old(self).entered_at->0)) as u128,
                last_seen: Ghost(now),
                ..*old(self)
            }),
            final(self).busy_time == old(self).busy_time + now - old(self).entered_at->0,
    {
        let e = match self.entered_at {
            Some(e) => e,
            None => 0,
        };
        self.busy_time = self.busy_time + (now - e);
        self.entered_at = None;
        proof {
            self.last_seen@ = now;
        }
    }

    /// The idle time at closing: elapsed time since creation not accounted
    /// as busy. Busy and idle time always sum to the elapsed time.
    pub fn close_idle(&self, now: u128) -> (idle: u128)
        requires
            self.wf(),
            now >= self.last_seen@,
        ensures
            idle == (now - self.created_at) - self.busy_time,
            self.busy_time + idle == now - self.created_at,
    {
        (now - self.created_at) - self.busy_time
    }
}

/// Busy/idle accounting over one enter/exit bracket: a span created at `t0`,
/// entered at `t1`, exited at `t2` and closed at `t3` reports exactly
/// `t2 - t1` busy and `(t3 - t0) - (t2 - t1)` idle; entered at creation and
/// closed at exit, it reports zero idle.
pub proof fn lemma_busy_idle_accounting(s0: Storage, t1: u128, t2: u128, t3: u128)
    requires
        s0.wf(),
        s0.busy_time == 0,
        s0.entered_at is None,
        s0.last_seen@ <= t1,
        t1 <= t2 <= t3,
    ensures
        ({
            let s1 = Storage { entered_at: Some(t1), last_seen: Ghost(t1), ..s0 };
            let s2 = Storage {
                entered_at: None,
                busy_time: (s1.busy_time + (t2 - t1)) as u128,
                last_seen: Ghost(t2),
                ..s1
            };
            &&& s2.busy_time == t2 - t1
            &&& (t3 - s0.created_at) - s2.busy_time == (t3 - s0.created_at) - (t2 - t1)
            &&& (t1 == s0.created_at && t3 == t2) ==> (t3 - s0.created_at) - s2.busy_time == 0
        }),
{
}

/// The process-wide table from open span handles to trace identifiers. One
/// entry exists per currently open span: inserted at span creation, removed
/// at span close.
pub struct TraceIdMap {
    table: std::collections::HashMap<u64, u128>,
}

impl View for TraceIdMap {
    type V = Map<u64, u128>;

    closed spec fn view(&self) -> Map<u64, u128> {
        self.table@
    }
}

impl TraceIdMap {
    /// An empty table.
    pub fn new() -> (m: TraceIdMap)
        ensures
            m@ == Map::<u64, u128>::empty(),
    {
        TraceIdMap { table: std::collections::HashMap::new() }
    }
}

/// Registers an open span's trace identifier under its handle.
pub fn insert_trace_id(table: &mut TraceIdMap, handle: u64, trace_id: u128)
    ensures
        final(table)@ == old(table)@.insert(handle, trace_id),
{
    table.table.insert(handle, trace_id);
}

/// Removes a closed span's entry.
pub fn remove_trace_id(table: &mut TraceIdMap, handle: u64)
    ensures
        final(table)@ == old(table)@.remove(handle),
{
    table.table.remove(&handle);
}

/// Looks up the trace identifier of an open span by its handle: the
/// registered identifier, or `None` for a handle with no open span.
pub fn get_trace_id(table: &TraceIdMap, handle: u64) -> (r: Option<u128>)
    ensures
        r == if table@.contains_key(handle) {
            Some(table@[handle])
        } else {
            None::<u128>
        },
{
    match table.table.get(&handle) {
        Some(v) => Some(*v),
        None => None,
    }
}

/// Table hygiene: once a handle's entry is removed its lookup misses, and
/// once a handle is registered its lookup yields exactly the registered
/// trace identifier.
pub proof fn lemma_table_hygiene(m: Map<u64, u128>, handle: u64, trace_id: u128)
    ensures
        !m.remove(handle).contains_key(handle),
        m.insert(handle, trace_id).contains_key(handle),
        m.insert(handle, trace_id)[handle] == trace_id,
{
}

/// The fraction digits written after the decimal point of a human-readable
/// duration: digits from the most significant place down, stopping once the
/// remaining fraction is zero, so that trailing zeros are left off.
pub open spec fn frac_digits(x: int, div: int) -> Seq<char>
    decreases div,
{
    if x <= 0 || div <= 0 {
        Seq::empty()
    } else {
        seq![digit_char(x / div)] + frac_digits(x % div, div / 10)
    }
}

/// The fraction part of a human-readable duration: empty for a whole value,
/// else a decimal point and the fraction digits.
pub open spec fn frac_part(x: int, div: int) -> Seq<char> {
    if x == 0 {
        Seq::empty()
    } else {
        seq!['.'] + frac_digits(x, div)
    }
}

/// The human-readable form of a duration in nanoseconds: seconds,
/// milliseconds, microseconds or nanoseconds, whichever unit fits, with the
/// fraction trimmed of trailing zeros.
pub open spec fn duration_str(n: int) -> Seq<char> {
    let secs = n / 1000000000;
    let nanos = n % 1000000000;
    if secs > 0 {
        dec_digits(secs) + frac_part(nanos, 100000000) + seq!['s']
    } else if nanos >= 1000000 {
        dec_digits(nanos / 1000000) + frac_part(nanos % 1000000, 100000) + seq!['m', 's']
    } else if nanos >= 1000 {
        dec_digits(nanos / 1000) + frac_part(nanos % 1000, 100) + seq!['\u{b5}', 's']
    } else {
        dec_digits(nanos) + seq!['n', 's']
    }
}

/// Whether a number is a power of ten.
pub open spec fn is_pow10(d: int) -> bool
    decreases d,
{
    d == 1 || (d >= 10 && d % 10 == 0 && is_pow10(d / 10))
}

proof fn lemma_pow10_constants()
    ensures
        is_pow10(100),
        is_pow10(100000),
        is_pow10(100000000),
{
    assert(is_pow10(1));
    assert(is_pow10(10));
    assert(is_pow10(100));
    assert(is_pow10(1000));
    assert(is_pow10(10000));
    assert(is_pow10(100000));
    assert(is_pow10(1000000));
    assert(is_pow10(10000000));
    assert(is_pow10(100000000));
}

#[verifier::loop_isolation(false)]
fn push_frac(out: &mut Vec<char>, x: u32, div: u32)
    requires
        x == 0 || (x < div * 10 && is_pow10(div as int)),
    ensures
        final(out)@ == old(out)@ + frac_part(x as int, div as int),
{
    if x == 0 {
        proof {
            assert(old(out)@ + frac_part(0, div as int) =~= old(out)@);
        }
        return ;
    }
    out.push('.');
    let mut rest: u32 = x;
    let mut d: u32 = div;
    while rest > 0
        invariant
            rest == 0 || (rest < d * 10 && is_pow10(d as int)),
            out@ == old(out)@ + seq!['.'] + (frac_digits(x as int, div as int).take(
                (frac_digits(x as int, div as int).len() - frac_digits(
                    rest as int,
                    d as int,
                ).len()) as int,
            )),
            frac_digits(x as int, div as int) == frac_digits(x as int, div as int).take(
                (frac_digits(x as int, div as int).len() - frac_digits(
                    rest as int,
                    d as int,
                ).len()) as int,
            ) + frac_digits(rest as int, d as int),
        decreases d,
    {
        proof {
            assert(d >= 1);
            assert(rest / d < 10) by (nonlinear_arith)
                requires
                    rest < d * 10,
                    d >= 1,
            ;
        }
        let digit = rest / d;
        let ghost pre = frac_digits(rest as int, d as int);
        out.push(digit_char_exec(digit as u8));
        proof {
            assert(pre =~= seq![digit_char(digit as int)] + frac_digits(
                (rest % d) as int,
                (d / 10) as int,
            ));
            let full = frac_digits(x as int, div as int);
            let done = (full.len() - pre.len()) as int;
            assert(full.take(done + 1) =~= full.take(done) + seq![full[done]]);
            assert(full[done] == pre[0]);
            if d == 1 {
                assert(rest % d == 0);
            } else {
                assert(d % 10 == 0 && is_pow10(d as int / 10));
                assert(d as int == (d as int / 10) * 10);
                assert(rest % d < d);
            }
        }
        rest = rest % d;
        d = d / 10;
    }
    proof {
        assert(frac_digits(rest as int, d as int) =~= Seq::<char>::empty());
        let full = frac_digits(x as int, div as int);
        assert(full.take(full.len() as int) =~= full);
        assert(final(out)@ =~= old(out)@ + frac_part(x as int, div as int));
    }
}

/// Appends the human-readable form of a duration in nanoseconds.
pub fn push_duration(out: &mut Vec<char>, n: u128)
    ensures
        final(out)@ == old(out)@ + duration_str(n as int),
{
    let secs: u128 = n / 1000000000;
    let nanos: u32 = (n % 1000000000) as u32;
    proof {
        lemma_pow10_constants();
    }
    if secs > 0 {
        push_dec_u128(out, secs);
        push_frac(out, nanos, 100000000);
        out.push('s');
        proof {
            assert(final(out)@ =~= old(out)@ + duration_str(n as int));
        }
    } else if nanos >= 1000000 {
        push_dec_u128(out, (nanos / 1000000) as u128);
        push_frac(out, nanos % 1000000, 100000);
        out.push('m');
        out.push('s');
        proof {
            assert(final(out)@ =~= old(out)@ + duration_str(n as int));
        }
    } else if nanos >= 1000 {
        push_dec_u128(out, (nanos / 1000) as u128);
        push_frac(out, nanos % 1000, 100);
        out.push('\u{b5}');
        out.push('s');
        proof {
            assert(final(out)@ =~= old(out)@ + duration_str(n as int));
        }
    } else {
        push_dec_u128(out, nanos as u128);
        out.push('n');
        out.push('s');
        proof {
            assert(final(out)@ =~= old(out)@ + duration_str(n as int));
        }
    }
}

/// The JSON form of one captured value.
pub open spec fn field_data_json(v: FieldData) -> Seq<char> {
    match v {
        FieldData::SInt(i) => dec_str(i as int),
        FieldData::UInt(u) => dec_digits(u as int),
        FieldData::Bool(b) => if b {
            seq!['t', 'r', 'u', 'e']
        } else {
            seq!['f', 'a', 'l', 's', 'e']
        },
        FieldData::Text(t) => json_str(t),
        FieldData::Float(t) => t,
        FieldData::Null => seq!['n', 'u', 'l', 'l'],
    }
}

/// The JSON form of one field entry: the key as a string, a colon, the value.
pub open spec fn entry_json(e: FieldEntry) -> Seq<char> {
    json_str(e.0) + seq![':'] + field_data_json(e.1)
}

/// The comma-separated members of a fields object.
pub open spec fn fields_json_body(s: Seq<FieldEntry>) -> Seq<char>
    decreases s.len(),
{
    if s.len() == 0 {
        Seq::empty()
    } else if s.len() == 1 {
        entry_json(s[0])
    } else {
        fields_json_body(s.drop_last()) + seq![','] + entry_json(s.last())
    }
}

/// The JSON object holding a span's or an event's fields.
pub open spec fn fields_json(s: Seq<FieldEntry>) -> Seq<char> {
    seq!['{'] + fields_json_body(s) + seq!['}']
}

fn push_field_value(out: &mut Vec<char>, v: &FieldValue)
    ensures
        final(out)@ == old(out)@ + field_data_json(v@),
{
    match v {
        FieldValue::SInt(i) => {
            push_dec_i64(out, *i);
        },
        FieldValue::UInt(u) => {
            push_dec_u64(out, *u);
        },
        FieldValue::Bool(b) => {
            if *b {
                push_str_chars(out, "true");
                proof {
                    reveal_strlit("true");
                    assert(final(out)@ =~= old(out)@ + field_data_json(v@));
                }
            } else {
                push_str_chars(out, "false");
                proof {
                    reveal_strlit("false");
                    assert(final(out)@ =~= old(out)@ + field_data_json(v@));
                }
            }
        },
        FieldValue::Text(t) => {
            push_json_str(out, t);
        },
        FieldValue::Float(t) => {
            push_chars(out, t);
        },
        FieldValue::Null => {
            push_str_chars(out, "null");
            proof {
                reveal_strlit("null");
                assert(final(out)@ =~= old(out)@ + field_data_json(v@));
            }
        },
    }
}

#[verifier::loop_isolation(false)]
fn push_fields(out: &mut Vec<char>, m: &FieldMap)
    ensures
        final(out)@ == old(out)@ + fields_json(m@),
{
    out.push('{');
    let mut i: usize = 0;
    while i < m.entries.len()
        invariant
            i <= m@.len(),
            out@ == old(out)@ + seq!['{'] + fields_json_body(m@.take(i as int)),
        decreases m@.len() - i,
    {
        if i > 0 {
            out.push(',');
        }
        proof {
            let t = m@.take(i + 1);
            assert(t.drop_last() =~= m@.take(i as int));
            assert(t.last() == m@[i as int]);
            assert(m@[i as int].0 == m.entries@[i as int].0@);
            assert(m@[i as int].1 == m.entries@[i as int].1@);
        }
        push_json_str(out, &m.entries[i].0);
        out.push(':');
        push_field_value(out, &m.entries[i].1);
        proof {
            if i == 0 {
                assert(out@ =~= old(out)@ + seq!['{'] + fields_json_body(m@.take(i + 1)));
            } else {
                assert(out@ =~= old(out)@ + seq!['{'] + fields_json_body(m@.take(i + 1)));
            }
        }
        i = i + 1;
    }
    out.push('}');
    proof {
        assert(m@.take(m@.len() as int) =~= m@);
        assert(final(out)@ =~= old(out)@ + fields_json(m@));
    }
}

/// The JSON form of an optional string: the string or `null`.
pub open spec fn opt_str_json(v: Option<Seq<char>>) -> Seq<char> {
    match v {
        Some(s) => json_str(s),
        None => seq!['n', 'u', 'l', 'l'],
    }
}

/// The JSON form of an optional line number: the number or `null`.
pub open spec fn opt_line_json(v: Option<u32>) -> Seq<char> {
    match v {
        Some(n) => dec_digits(n as int),
        None => seq!['n', 'u', 'l', 'l'],
    }
}

/// One `"key":` prefix of a JSON object member.
pub open spec fn key_json(k: Seq<char>) -> Seq<char> {
    json_str(k) + seq![':']
}

/// The span-close record: one JSON object, members in key order, holding the
/// span's name, level, target, source location, fields, codec-encoded
/// identifiers (the parent identifier only when there is a parent), and the
/// human-readable busy and idle times.
/// The opening of a span record: busy time and fields.
pub open spec fn span_rec_head(s: Storage) -> Seq<char> {
    seq!['{'] + key_json("busy_time"@) + json_str(duration_str(s.busy_time as int)) + seq![',']
        + key_json("fields"@) + fields_json(s.fields@)
}

/// The source file and idle time members of a span record.
pub open spec fn span_rec_loc(file: Option<Seq<char>>, idle: u128) -> Seq<char> {
    seq![','] + key_json("file"@) + opt_str_json(file) + seq![','] + key_json("idle_time"@)
        + json_str(duration_str(idle as int))
}

/// The level, line and name members of a span record.
pub open spec fn span_rec_meta(name: Seq<char>, level: Seq<char>, line: Option<u32>) -> Seq<
    char,
> {
    seq![','] + key_json("level"@) + json_str(level) + seq![','] + key_json("line"@)
        + opt_line_json(line) + seq![','] + key_json("name"@) + json_str(name)
}

/// The identifier members of a span record: the codec-encoded parent
/// identifier when there is a parent, and the span identifier.
pub open spec fn span_rec_ids(s: Storage) -> Seq<char> {
    (match s.parent_id {
        Some(p) => seq![','] + key_json("parent_id"@) + json_str(encode_spec(p)),
        None => Seq::<char>::empty(),
    }) + seq![','] + key_json("span_id"@) + json_str(encode_spec(s.span_id))
}

/// The closing members of a span record: target, codec-encoded trace
/// identifier, and the record type.
pub open spec fn span_rec_tail(target: Seq<char>, s: Storage) -> Seq<char> {
    seq![','] + key_json("target"@) + json_str(target) + seq![','] + key_json("trace_id"@)
        + json_str(encode_spec(s.trace_id)) + seq![','] + key_json("type"@) + json_str("span"@)
        + seq!['}']
}

pub open spec fn span_record_spec(
    name: Seq<char>,
    level: Seq<char>,
    target: Seq<char>,
    file: Option<Seq<char>>,
    line: Option<u32>,
    s: Storage,
    idle: u128,
) -> Seq<char> {
    span_rec_head(s) + span_rec_loc(file, idle) + span_rec_meta(name, level, line) + span_rec_ids(
        s,
    ) + span_rec_tail(target, s)
}

/// Whether a character stands for itself inside a JSON string literal.
pub open spec fn plain_char(c: char) -> bool {
    c as u32 != 34 && c as u32 != 92 && c as u32 >= 32
}

/// Whether every character of a text stands for itself.
pub open spec fn all_plain(s: Seq<char>) -> bool {
    forall|i: int| 0 <= i < s.len() ==> plain_char(#[trigger] s[i])
}

/// Escaping changes nothing in a text of plain characters.
proof fn lemma_escape_plain(s: Seq<char>)
    requires
        all_plain(s),
    ensures
        crate::util::text::escape_json(s) == s,
    decreases s.len(),
{
    if s.len() == 0 {
        assert(crate::util::text::escape_json(s) =~= s);
    } else {
        assert(all_plain(s.drop_last()));
        lemma_escape_plain(s.drop_last());
        assert(plain_char(s.last()));
        assert(crate::util::text::escape_char(s.last()) =~= seq![s.last()]);
        assert(s.drop_last() + seq![s.last()] =~= s);
    }
}

proof fn lemma_all_plain_concat(a: Seq<char>, b: Seq<char>)
    requires
        all_plain(a),
        all_plain(b),
    ensures
        all_plain(a + b),
{
    assert forall|i: int| 0 <= i < (a + b).len() implies plain_char(#[trigger] (a + b)[i]) by {
        if i < a.len() {
            assert((a + b)[i] == a[i]);
        } else {
            assert((a + b)[i] == b[i - a.len()]);
        }
    }
}

proof fn lemma_dec_digits_plain(n: int)
    requires
        n >= 0,
    ensures
        all_plain(dec_digits(n)),
    decreases n,
{
    if n < 10 {
        assert(plain_char(digit_char(n)));
    } else {
        lemma_dec_digits_plain(n / 10);
        assert(plain_char(digit_char(n % 10)));
        lemma_all_plain_concat(dec_digits(n / 10), seq![digit_char(n % 10)]);
    }
}

proof fn lemma_frac_digits_plain(x: int, div: int)
    requires
        x <= 0 || div <= 0 || (x < div * 10 && is_pow10(div)),
    ensures
        all_plain(frac_digits(x, div)),
    decreases div,
{
    if x <= 0 || div <= 0 {
    } else {
        if div == 1 {
            assert(x % div == 0);
        } else {
            assert(div % 10 == 0 && is_pow10(div / 10));
            assert(div == (div / 10) * 10);
            assert(x % div < div);
        }
        lemma_frac_digits_plain(x % div, div / 10);
        assert(x / div < 10) by (nonlinear_arith)
            requires
                x < div * 10,
                div >= 1,
        ;
        assert(x / div >= 0);
        assert(plain_char(digit_char(x / div)));
        lemma_all_plain_concat(seq![digit_char(x / div)], frac_digits(x % div, div / 10));
    }
}

proof fn lemma_frac_part_plain(x: int, div: int)
    requires
        x <= 0 || div <= 0 || (x < div * 10 && is_pow10(div)),
    ensures
        all_plain(frac_part(x, div)),
{
    if x == 0 {
    } else {
        lemma_frac_digits_plain(x, div);
        assert(plain_char('.'));
        lemma_all_plain_concat(seq!['.'], frac_digits(x, div));
    }
}

/// The human-readable form of a duration holds only plain characters.
proof fn lemma_duration_plain(n: int)
    requires
        n >= 0,
    ensures
        all_plain(duration_str(n)),
        crate::util::text::escape_json(duration_str(n)) == duration_str(n),
{
    let secs = n / 1000000000;
    let nanos = n % 1000000000;
    lemma_pow10_constants();
    if secs > 0 {
        lemma_dec_digits_plain(secs);
        lemma_frac_part_plain(nanos, 100000000);
        lemma_all_plain_concat(dec_digits(secs), frac_part(nanos, 100000000));
        assert(plain_char('s'));
        lemma_all_plain_concat(dec_digits(secs) + frac_part(nanos, 100000000), seq!['s']);
    } else if nanos >= 1000000 {
        lemma_dec_digits_plain(nanos / 1000000);
        lemma_frac_part_plain(nanos % 1000000, 100000);
        lemma_all_plain_concat(dec_digits(nanos / 1000000), frac_part(nanos % 1000000, 100000));
        assert(plain_char('m') && plain_char('s'));
        assert(all_plain(seq!['m', 's']));
        lemma_all_plain_concat(
            dec_digits(nanos / 1000000) + frac_part(nanos % 1000000, 100000),
            seq!['m', 's'],
        );
    } else if nanos >= 1000 {
        lemma_dec_digits_plain(nanos / 1000);
        lemma_frac_part_plain(nanos % 1000, 100);
        lemma_all_plain_concat(dec_digits(nanos / 1000), frac_part(nanos % 1000, 100));
        assert(plain_char('\u{b5}') && plain_char('s'));
        assert(all_plain(seq!['\u{b5}', 's']));
        lemma_all_plain_concat(
            dec_digits(nanos / 1000) + frac_part(nanos % 1000, 100),
            seq!['\u{b5}', 's'],
        );
    } else {
        lemma_dec_digits_plain(nanos);
        assert(plain_char('n') && plain_char('s'));
        assert(all_plain(seq!['n', 's']));
        lemma_all_plain_concat(dec_digits(nanos), seq!['n', 's']);
    }
    lemma_escape_plain(duration_str(n));
}

fn push_key(out: &mut Vec<char>, name: &str)
    ensures
        final(out)@ == old(out)@ + key_json(name@),
{
    let k = chars_vec(name);
    push_json_str(out, &k);
    out.push(':');
    proof {
        assert(final(out)@ =~= old(out)@ + key_json(name@));
    }
}

fn push_opt_str(out: &mut Vec<char>, v: Option<&str>)
    ensures
        final(out)@ == old(out)@ + opt_str_json(
            match v {
                Some(f) => Some(f@),
                None => None,
            },
        ),
{
    match v {
        Some(f) => {
            let cs = chars_vec(f);
            push_json_str(out, &cs);
        },
        None => {
            push_str_chars(out, "null");
            proof {
                reveal_strlit("null");
                assert(final(out)@ =~= old(out)@ + seq!['n', 'u', 'l', 'l']);
            }
        },
    }
}

fn push_opt_line(out: &mut Vec<char>, v: Option<u32>)
    ensures
        final(out)@ == old(out)@ + opt_line_json(v),
{
    match v {
        Some(n) => {
            push_dec_u64(out, n as u64);
        },
        None => {
            push_str_chars(out, "null");
            proof {
                reveal_strlit("null");
                assert(final(out)@ =~= old(out)@ + seq!['n', 'u', 'l', 'l']);
            }
        },
    }
}

fn push_encoded(out: &mut Vec<char>, id: u128)
    ensures
        final(out)@ == old(out)@ + json_str(encode_spec(id)),
{
    let e = crate::util::radix32::encode_chars(id);
    push_json_str(out, &e);
}

impl Storage {
    /// Renders the span-close record for this span, closed at `now`: the
    /// idle time is the elapsed time since creation not accounted as busy.
    #[verifier::rlimit(100)]
    pub fn close_record(
        &self,
        name: &str,
        level: &str,
        target: &str,
        file: Option<&str>,
        line: Option<u32>,
        now: u128,
    ) -> (out: String)
        requires
            self.wf(),
            now >= self.last_seen@,
        ensures
            out@ == span_record_spec(
                name@,
                level@,
                target@,
                match file {
                    Some(f) => Some(f@),
                    None => None,
                },
                line,
                *self,
                ((now - self.created_at) - self.busy_time) as u128,
            ),
    {
        let idle = self.close_idle(now);
        let ghost file_view: Option<Seq<char>> = match file {
            Some(f) => Some(f@),
            None => None,
        };
        let mut out: Vec<char> = Vec::new();
        out.push('{');
        push_key(&mut out, "busy_time");
        out.push('"');
        push_duration(&mut out, self.busy_time);
        out.push('"');
        out.push(',');
        push_key(&mut out, "fields");
        push_fields(&mut out, &self.fields);
        proof {
            lemma_duration_plain(self.busy_time as int);
            assert(out@ =~= span_rec_head(*self));
        }
        let ghost mark1 = out@;
        out.push(',');
        push_key(&mut out, "file");
        push_opt_str(&mut out, file);
        out.push(',');
        push_key(&mut out, "idle_time");
        out.push('"');
        push_duration(&mut out, idle);
        out.push('"');
        proof {
            lemma_duration_plain(idle as int);
            assert(out@ =~= mark1 + span_rec_loc(file_view, idle));
        }
        let ghost mark2 = out@;
        out.push(',');
        push_key(&mut out, "level");
        let level_chars = chars_vec(level);
        push_json_str(&mut out, &level_chars);
        out.push(',');
        push_key(&mut out, "line");
        push_opt_line(&mut out, line);
        out.push(',');
        push_key(&mut out, "name");
        let name_chars = chars_vec(name);
        push_json_str(&mut out, &name_chars);
        proof {
            assert(out@ =~= mark2 + span_rec_meta(name@, level@, line));
        }
        let ghost mark3 = out@;
        match self.parent_id {
            Some(p) => {
                out.push(',');
                push_key(&mut out, "parent_id");
                push_encoded(&mut out, p);
            },
            None => {},
        }
        out.push(',');
        push_key(&mut out, "span_id");
        push_encoded(&mut out, self.span_id);
        proof {
            assert(out@ =~= mark3 + span_rec_ids(*self));
        }
        let ghost mark4 = out@;
        out.push(',');
        push_key(&mut out, "target");
        let target_chars = chars_vec(target);
        push_json_str(&mut out, &target_chars);
        out.push(',');
        push_key(&mut out, "trace_id");
        push_encoded(&mut out, self.trace_id);
        out.push(',');
        push_key(&mut out, "type");
        out.push('"');
        push_str_chars(&mut out, "span");
        out.push('"');
        out.push('}');
        proof {
            reveal_strlit("span");
            assert(all_plain("span"@));
            lemma_escape_plain("span"@);
            assert(out@ =~= mark4 + span_rec_tail(target@, *self));
            assert(out@ =~= span_rec_head(*self) + span_rec_loc(file_view, idle) + span_rec_meta(
                name@,
                level@,
                line,
            ) + span_rec_ids(*self) + span_rec_tail(target@, *self));
        }
        string_from_chars(&out)
    }
}

/// The opening of an event record: fields, source file, level and line.
pub open spec fn event_rec_head(
    level: Seq<char>,
    file: Option<Seq<char>>,
    line: Option<u32>,
    fields: Seq<FieldEntry>,
) -> Seq<char> {
    seq!['{'] + key_json("fields"@) + fields_json(fields) + seq![','] + key_json("file"@)
        + opt_str_json(file) + seq![','] + key_json("level"@) + json_str(level) + seq![',']
        + key_json("line"@) + opt_line_json(line)
}

/// The closing of an event record: the enclosing span's codec-encoded
/// identifiers when the event fell inside an open span, the target, and the
/// record type.
pub open spec fn event_rec_tail(target: Seq<char>, span_ids: Option<(u128, u128)>) -> Seq<char> {
    (match span_ids {
        Some(ids) => seq![','] + key_json("span_id"@) + json_str(encode_spec(ids.1)),
        None => Seq::<char>::empty(),
    }) + seq![','] + key_json("target"@) + json_str(target) + (match span_ids {
        Some(ids) => seq![','] + key_json("trace_id"@) + json_str(encode_spec(ids.0)),
        None => Seq::<char>::empty(),
    }) + seq![','] + key_json("type"@) + json_str("event"@) + seq!['}']
}

/// The event record: one JSON object, members in key order, holding the
/// event's level, target, source location and fields, and the identifiers
/// `(trace_id, span_id)` of the enclosing open span, if the event fell
/// inside one.
pub open spec fn event_record_spec(
    level: Seq<char>,
    target: Seq<char>,
    file: Option<Seq<char>>,
    line: Option<u32>,
    fields: Seq<FieldEntry>,
    span_ids: Option<(u128, u128)>,
) -> Seq<char> {
    event_rec_head(level, file, line, fields) + event_rec_tail(target, span_ids)
}

/// Renders the record of one event: its fields, source location, level and
/// target, correlated with the enclosing open span's identifiers
/// `(trace_id, span_id)` when the event fell inside one.
#[verifier::rlimit(100)]
pub fn event_record(
    level: &str,
    target: &str,
    file: Option<&str>,
    line: Option<u32>,
    fields: &FieldMap,
    span_ids: Option<(u128, u128)>,
) -> (out: String)
    ensures
        out@ == event_record_spec(
            level@,
            target@,
            match file {
                Some(f) => Some(f@),
                None => None,
            },
            line,
            fields@,
            span_ids,
        ),
{
    let ghost file_view: Option<Seq<char>> = match file {
        Some(f) => Some(f@),
        None => None,
    };
    let mut out: Vec<char> = Vec::new();
    out.push('{');
    push_key(&mut out, "fields");
    push_fields(&mut out, fields);
    out.push(',');
    push_key(&mut out, "file");
    push_opt_str(&mut out, file);
    out.push(',');
    push_key(&mut out, "level");
    let level_chars = chars_vec(level);
    push_json_str(&mut out, &level_chars);
    out.push(',');
    push_key(&mut out, "line");
    push_opt_line(&mut out, line);
    proof {
        assert(out@ =~= event_rec_head(level@, file_view, line, fields@));
    }
    let ghost mark1 = out@;
    match span_ids {
        Some(ids) => {
            out.push(',');
            push_key(&mut out, "span_id");
            push_encoded(&mut out, ids.1);
        },
        None => {},
    }
    out.push(',');
    push_key(&mut out, "target");
    let target_chars = chars_vec(target);
    push_json_str(&mut out, &target_chars);
    match span_ids {
        Some(ids) => {
            out.push(',');
            push_key(&mut out, "trace_id");
            push_encoded(&mut out, ids.0);
        },
        None => {},
    }
    out.push(',');
    push_key(&mut out, "type");
    out.push('"');
    push_str_chars(&mut out, "event");
    out.push('"');
    out.push('}');
    proof {
        reveal_strlit("event");
        assert(all_plain("event"@));
        lemma_escape_plain("event"@);
        assert(out@ =~= mark1 + event_rec_tail(target@, span_ids));
        assert(out@ =~= event_rec_head(level@, file_view, line, fields@) + event_rec_tail(
            target@,
            span_ids,
        ));
    }
    string_from_chars(&out)
}

} // verus!
