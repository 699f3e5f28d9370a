//! Logical time: a totally ordered tuple of unsigned integers, with a `Top`
//! element that closes a stream.

use vstd::prelude::*;

verus! {

/// A message timestamp.  `Time` tuples are ordered lexicographically; `Top`
/// is greater than every tuple and denotes the end of a stream.
#[derive(Debug)]
pub enum Timestamp {
    Time(Vec<u64>),
    Top,
}

/// The mathematical value of a timestamp.
pub enum TimeVal {
    At(Seq<u64>),
    Top,
}

impl View for Timestamp {
    type V = TimeVal;

    open spec fn view(&self) -> TimeVal {
        match self {
            Timestamp::Time(v) => TimeVal::At(v@),
            Timestamp::Top => TimeVal::Top,
        }
    }
}

/// Lexicographic order on tuples; a prefix precedes its extensions.
pub open spec fn lex_le(a: Seq<u64>, b: Seq<u64>) -> bool
    decreases a.len(),
{
    if a.len() == 0 {
        true
    } else if b.len() == 0 {
        false
    } else if a[0] < b[0] {
        true
    } else if a[0] > b[0] {
        false
    } else {
        lex_le(a.skip(1), b.skip(1))
    }
}

/// The order on timestamp values: lexicographic on tuples, `Top` greatest.
pub open spec fn time_le(a: TimeVal, b: TimeVal) -> bool {
    match b {
        TimeVal::Top => true,
        TimeVal::At(y) => match a {
            TimeVal::Top => false,
            TimeVal::At(x) => lex_le(x, y),
        },
    }
}

// ------------------------------------------------------------------
// The order laws.
// ------------------------------------------------------------------

pub proof fn lemma_lex_le_refl(a: Seq<u64>)
    ensures
        lex_le(a, a),
    decreases a.len(),
{
    if a.len() > 0 {
        lemma_lex_le_refl(a.skip(1));
    }
}

pub proof fn lemma_lex_le_total(a: Seq<u64>, b: Seq<u64>)
    ensures
        lex_le(a, b) || lex_le(b, a),
    decreases a.len(),
{
    if a.len() > 0 && b.len() > 0 && a[0] == b[0] {
        lemma_lex_le_total(a.skip(1), b.skip(1));
    }
}

pub proof fn lemma_lex_le_trans(a: Seq<u64>, b: Seq<u64>, c: Seq<u64>)
    requires
        lex_le(a, b),
        lex_le(b, c),
    ensures
        lex_le(a, c),
    decreases a.len(),
{
    if a.len() == 0 {
    } else {
        // a nonempty forces b nonempty, which forces c nonempty
        assert(b.len() > 0);
        assert(c.len() > 0);
        if a[0] == b[0] && b[0] == c[0] {
            lemma_lex_le_trans(a.skip(1), b.skip(1), c.skip(1));
        }
    }
}

pub proof fn lemma_lex_le_antisym(a: Seq<u64>, b: Seq<u64>)
    requires
        lex_le(a, b),
        lex_le(b, a),
    ensures
        a == b,
    decreases a.len(),
{
    if a.len() == 0 {
        assert(b.len() == 0);
        assert(a =~= b);
    } else {
        assert(b.len() > 0);
        assert(a[0] == b[0]);
        lemma_lex_le_antisym(a.skip(1), b.skip(1));
        assert forall|k: int| 0 <= k < a.len() implies a[k] == b[k] by {
            if k > 0 {
                assert(a.skip(1)[k - 1] == a[k]);
                assert(b.skip(1)[k - 1] == b[k]);
            }
        }
        assert(a.len() == b.len()) by {
            assert(a.skip(1).len() == b.skip(1).len());
        }
        assert(a =~= b);
    }
}

pub proof fn lemma_time_le_refl(a: TimeVal)
    ensures
        time_le(a, a),
{
    if a is At {
        lemma_lex_le_refl(a->At_0);
    }
}

pub proof fn lemma_time_le_total(a: TimeVal, b: TimeVal)
    ensures
        time_le(a, b) || time_le(b, a),
{
    if a is At && b is At {
        lemma_lex_le_total(a->At_0, b->At_0);
    }
}

pub proof fn lemma_time_le_trans(a: TimeVal, b: TimeVal, c: TimeVal)
    requires
        time_le(a, b),
        time_le(b, c),
    ensures
        time_le(a, c),
{
    if a is At && b is At && c is At {
        lemma_lex_le_trans(a->At_0, b->At_0, c->At_0);
    }
}

pub proof fn lemma_time_le_antisym(a: TimeVal, b: TimeVal)
    requires
        time_le(a, b),
        time_le(b, a),
    ensures
        a == b,
{
    if a is At && b is At {
        lemma_lex_le_antisym(a->At_0, b->At_0);
    }
}

// ------------------------------------------------------------------
// Executable comparison and helpers.
// ------------------------------------------------------------------

/// The common-prefix rule: equal prefixes do not decide the order.
proof fn lemma_lex_skip(a: Seq<u64>, b: Seq<u64>, i: int)
    requires
        0 <= i <= a.len(),
        i <= b.len(),
        forall|j: int| 0 <= j < i ==> a[j] == b[j],
    ensures
        lex_le(a, b) == lex_le(a.skip(i), b.skip(i)),
    decreases i,
{
    if i == 0 {
        assert(a.skip(0) =~= a);
        assert(b.skip(0) =~= b);
    } else {
        assert(a.len() > 0 && b.len() > 0 && a[0] == b[0]);
        assert(lex_le(a, b) == lex_le(a.skip(1), b.skip(1)));
        assert(forall|j: int| 0 <= j < i - 1
            ==> a.skip(1)[j] == a[j + 1] && b.skip(1)[j] == b[j + 1]);
        lemma_lex_skip(a.skip(1), b.skip(1), i - 1);
        assert(a.skip(1).skip(i - 1) =~= a.skip(i));
        assert(b.skip(1).skip(i - 1) =~= b.skip(i));
    }
}

fn lex_le_exec(x: &Vec<u64>, y: &Vec<u64>) -> (r: bool)
    ensures
        r == lex_le(x@, y@),
{
    let mut i: usize = 0;
    while i < x.len() && i < y.len()
        invariant
            i <= x@.len(),
            i <= y@.len(),
            forall|j: int| 0 <= j < i ==> x@[j] == y@[j],
        decreases x@.len() - i,
    {
        proof {
            lemma_lex_skip(x@, y@, i as int);
            assert(x@.skip(i as int)[0] == x@[i as int]);
            assert(y@.skip(i as int)[0] == y@[i as int]);
        }
        if x[i] < y[i] {
            return true;
        }
        if x[i] > y[i] {
            return false;
        }
        i = i + 1;
    }
    proof {
        lemma_lex_skip(x@, y@, i as int);
        if i == x@.len() {
            assert(x@.skip(i as int).len() == 0);
        } else {
            assert(y@.skip(i as int).len() == 0);
            assert(x@.skip(i as int).len() > 0);
        }
    }
    x.len() <= y.len()
}

impl Timestamp {
    /// Whether `self` precedes or equals `other`.
    pub fn is_le(&self, other: &Timestamp) -> (r: bool)
        ensures
            r == time_le(self@, other@),
    {
        match other {
            Timestamp::Top => true,
            Timestamp::Time(y) => match self {
                Timestamp::Top => false,
                Timestamp::Time(x) => lex_le_exec(x, y),
            },
        }
    }

    pub fn is_top(&self) -> (r: bool)
        ensures
            r == (self@ is Top),
    {
        match self {
            Timestamp::Top => true,
            Timestamp::Time(_) => false,
        }
    }

    /// A copy with the same value.
    pub fn duplicate(&self) -> (r: Timestamp)
        ensures
            r@ == self@,
    {
        match self {
            Timestamp::Top => Timestamp::Top,
            Timestamp::Time(v) => {
                let mut w: Vec<u64> = Vec::new();
                let mut i: usize = 0;
                while i < v.len()
                    invariant
                        i <= v@.len(),
                        w@ == v@.subrange(0, i as int),
                    decreases v@.len() - i,
                {
                    w.push(v[i]);
                    proof {
                        assert(w@ =~= v@.subrange(0, i + 1));
                    }
                    i = i + 1;
                }
                proof {
                    assert(v@.subrange(0, v@.len() as int) =~= v@);
                }
                Timestamp::Time(w)
            }
        }
    }
}

impl PartialEq for Timestamp {
    fn eq(&self, other: &Self) -> (r: bool) {
        let le1 = self.is_le(other);
        let le2 = other.is_le(self);
        proof {
            if time_le(self@, other@) && time_le(other@, self@) {
                lemma_time_le_antisym(self@, other@);
            }
            if self@ == other@ {
                lemma_time_le_refl(self@);
            }
        }
        le1 && le2
    }
}

impl vstd::std_specs::cmp::PartialEqSpecImpl for Timestamp {
    open spec fn obeys_eq_spec() -> bool {
        true
    }

    open spec fn eq_spec(&self, other: &Self) -> bool {
        self@ == other@
    }
}

} // verus!
