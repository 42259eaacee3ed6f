//! Paths as Unix keeps them: bytes, ordered byte by byte.
use vstd::prelude::*;
use vstd::string::StrSliceExecFns;

use crate::model::Duplicate;
use crate::order::Ranked;

verus! {

/// The lexicographic order of byte sequences; a proper prefix comes first.
pub open spec fn bytes_precede(left: Seq<u8>, right: Seq<u8>) -> bool
    decreases left.len(),
{
    if right.len() == 0 {
        false
    } else if left.len() == 0 {
        true
    } else if left[0] != right[0] {
        left[0] < right[0]
    } else {
        bytes_precede(left.drop_first(), right.drop_first())
    }
}

/// Of two byte sequences at most one comes before the other; two of which neither
/// does are the same.
pub proof fn lemma_bytes_total(a: Seq<u8>, b: Seq<u8>)
    ensures
        bytes_precede(a, b) ==> !bytes_precede(b, a),
        !bytes_precede(a, b) && !bytes_precede(b, a) ==> a == b,
    decreases a.len(),
{
    if a.len() == 0 {
        if b.len() == 0 {
            assert(a =~= b);
        }
    } else if b.len() > 0 && a[0] == b[0] {
        lemma_bytes_total(a.drop_first(), b.drop_first());
        if a.drop_first() == b.drop_first() {
            assert(a =~= seq![a[0]] + a.drop_first());
            assert(b =~= seq![b[0]] + b.drop_first());
        }
    }
}

/// The order of byte sequences is transitive.
pub proof fn lemma_bytes_transitive(a: Seq<u8>, b: Seq<u8>, c: Seq<u8>)
    requires
        bytes_precede(a, b),
        bytes_precede(b, c),
    ensures
        bytes_precede(a, c),
    decreases a.len(),
{
    if a.len() > 0 && a[0] == b[0] && b[0] == c[0] {
        lemma_bytes_transitive(a.drop_first(), b.drop_first(), c.drop_first());
    }
}

/// The order of byte sequences, in full: one comes before another exactly where the two agree
/// up to some place, and there the first ends and the second goes on, or the first
/// holds the lower byte.
pub proof fn lemma_bytes_decided(left: Seq<u8>, right: Seq<u8>)
    ensures
        bytes_precede(left, right) <==> exists|at: int|
            {
                &&& 0 <= at <= left.len()
                &&& at < right.len()
                &&& #[trigger] left.take(at) == right.take(at)
                &&& at < left.len() ==> left[at] < right[at]
            },
    decreases left.len(),
{
    if left.len() > 0 && right.len() > 0 && left[0] == right[0] {
        let l = left.drop_first();
        let r = right.drop_first();
        lemma_bytes_decided(l, r);
        if bytes_precede(left, right) {
            let at = choose|at: int|
                {
                    &&& 0 <= at <= l.len()
                    &&& at < r.len()
                    &&& #[trigger] l.take(at) == r.take(at)
                    &&& at < l.len() ==> l[at] < r[at]
                };
            assert(left.take(at + 1) =~= right.take(at + 1)) by {
                assert forall|i: int| 0 <= i < at + 1 implies left[i] == right[i] by {
                    if i > 0 {
                        assert(l.take(at)[i - 1] == r.take(at)[i - 1]);
                    }
                }
            }
        }
        if exists|at: int|
            {
                &&& 0 <= at <= left.len()
                &&& at < right.len()
                &&& #[trigger] left.take(at) == right.take(at)
                &&& at < left.len() ==> left[at] < right[at]
            } {
            let at = choose|at: int|
                {
                    &&& 0 <= at <= left.len()
                    &&& at < right.len()
                    &&& #[trigger] left.take(at) == right.take(at)
                    &&& at < left.len() ==> left[at] < right[at]
                };
            assert(at > 0);
            assert(l.take(at - 1) =~= r.take(at - 1)) by {
                assert forall|i: int| 0 <= i < at - 1 implies l[i] == r[i] by {
                    assert(left.take(at)[i + 1] == right.take(at)[i + 1]);
                }
            }
        }
    } else {
        assert(left.take(0) =~= right.take(0));
        if exists|at: int|
            {
                &&& 0 <= at <= left.len()
                &&& at < right.len()
                &&& #[trigger] left.take(at) == right.take(at)
                &&& at < left.len() ==> left[at] < right[at]
            } {
            let at = choose|at: int|
                {
                    &&& 0 <= at <= left.len()
                    &&& at < right.len()
                    &&& #[trigger] left.take(at) == right.take(at)
                    &&& at < left.len() ==> left[at] < right[at]
                };
            if at > 0 {
                assert(left.take(at)[0] == right.take(at)[0]);
            }
        }
    }
}

/// A path, or one name in a directory. It need not be text.
#[derive(Debug, PartialEq, Eq)]
pub struct UnixPath {
    bytes: Vec<u8>,
}

impl View for UnixPath {
    type V = Seq<u8>;

    closed spec fn view(&self) -> Seq<u8> {
        self.bytes@
    }
}

impl UnixPath {
    /// The path of the given bytes.
    pub fn from_bytes(bytes: Vec<u8>) -> (path: Self)
        ensures
            path@ == bytes@,
    {
        UnixPath { bytes }
    }

    /// The path that a text writes down.
    pub fn from_text(text: &str) -> (path: Self)
        ensures
            path@ == vstd::utf8::encode_utf8(text@),
    {
        UnixPath { bytes: text.as_bytes_vec() }
    }

    pub fn as_bytes(&self) -> (bytes: &[u8])
        ensures
            bytes@ == self@,
    {
        self.bytes.as_slice()
    }
}

impl Duplicate for UnixPath {
    fn duplicate(&self) -> (copy: Self) {
        let copy = UnixPath { bytes: self.bytes.clone() };
        assert(copy@ =~= self@);
        copy
    }
}

impl Ranked for UnixPath {
    /// Paths are listed in the order of their bytes.
    open spec fn ranks_before(left: Seq<u8>, right: Seq<u8>) -> bool {
        bytes_precede(left, right)
    }

    proof fn rank_asymmetric(a: Seq<u8>, b: Seq<u8>) {
        lemma_bytes_total(a, b);
    }

    proof fn rank_transitive(a: Seq<u8>, b: Seq<u8>, c: Seq<u8>) {
        lemma_bytes_total(a, b);
        lemma_bytes_total(b, c);
        if bytes_precede(c, a) {
            if bytes_precede(a, b) {
                lemma_bytes_transitive(c, a, b);
            }
        }
    }

    fn is_before(&self, other: &Self) -> (before: bool) {
        let a = self.bytes.as_slice();
        let b = other.bytes.as_slice();
        let mut i: usize = 0;
        assert(a@.skip(0) =~= a@);
        assert(b@.skip(0) =~= b@);
        while i < a.len() && i < b.len() && a[i] == b[i]
            invariant
                i <= a@.len(),
                i <= b@.len(),
                a@ == self@,
                b@ == other@,
                bytes_precede(self@, other@) == bytes_precede(a@.skip(i as int), b@.skip(i as int)),
            decreases a.len() - i,
        {
            assert(a@.skip(i as int).drop_first() =~= a@.skip(i + 1));
            assert(b@.skip(i as int).drop_first() =~= b@.skip(i + 1));
            i += 1;
        }
        if i == b.len() {
            false
        } else if i == a.len() {
            true
        } else {
            a[i] < b[i]
        }
    }
}

} // verus!
