//! Tags: the strings that name user-interface elements and select their
//! theme and behaviour.

use vstd::prelude::*;

verus! {

broadcast use vstd::string::group_string_axioms;

/// The views of a list of tags.
pub open spec fn tags_view(tags: Seq<String>) -> Seq<Seq<char>> {
    tags.map_values(|t: String| t@)
}

/// Whether a list of tags holds a tag.
pub open spec fn has_tag(tags: Seq<String>, tag: Seq<char>) -> bool {
    tags_view(tags).contains(tag)
}

/// The decimal digit of `n < 10`.
pub open spec fn decimal_digit(n: int) -> char {
    (48 + n) as char
}

/// The decimal notation of a natural number, without sign or padding.
pub open spec fn decimal(n: nat) -> Seq<char>
    decreases n,
{
    if n < 10 {
        seq![decimal_digit(n as int)]
    } else {
        decimal(n / 10).push(decimal_digit((n % 10) as int))
    }
}

/// `ToString::to_string` on a `usize` (its `Display` form): the decimal
/// notation of the number.
#[verifier::external_body]
pub(crate) fn usize_to_decimal(n: usize) -> (s: String)
    ensures
        s@ == decimal(n as nat),
{
    n.to_string()
}

/// The number a string of decimal digits stands for.
pub open spec fn digits_value(s: Seq<char>) -> int
    decreases s.len(),
{
    if s.len() == 0 {
        0
    } else {
        digits_value(s.drop_last()) * 10 + (s.last() as int - 48)
    }
}

/// Decimal notation reads back as the number it was written for.
pub proof fn lemma_decimal_value(n: nat)
    ensures
        digits_value(decimal(n)) == n,
        decimal(n).len() >= 1,
    decreases n,
{
    if n >= 10 {
        lemma_decimal_value(n / 10);
        assert(decimal(n).drop_last() =~= decimal(n / 10));
        let d = (n % 10) as int;
        assert(decimal_digit(d) as int == 48 + d);
        assert(decimal(n).last() == decimal_digit(d));
        assert((n / 10) * 10 + n % 10 == n);
        assert(digits_value(decimal(n)) == digits_value(decimal(n).drop_last()) * 10 + (decimal(n).last() as int - 48));
    } else {
        assert(decimal(n).drop_last() =~= Seq::<char>::empty());
        assert(decimal_digit(n as int) as int == 48 + n);
        assert(digits_value(Seq::<char>::empty()) == 0);
        assert(digits_value(decimal(n)) == digits_value(decimal(n).drop_last()) * 10 + (decimal(n).last() as int - 48));
    }
}

/// Different numbers have different decimal notations.
pub proof fn lemma_decimal_injective(a: nat, b: nat)
    requires
        decimal(a) == decimal(b),
    ensures
        a == b,
{
    lemma_decimal_value(a);
    lemma_decimal_value(b);
}

/// Different numbers give different numbered tags with the same prefix.
pub proof fn lemma_indexed_injective(prefix: Seq<char>, a: nat, b: nat)
    requires
        indexed(prefix, a) == indexed(prefix, b),
    ensures
        a == b,
{
    let k = prefix.len() + 1;
    reveal_strlit("_");
    assert(indexed(prefix, a).subrange(k as int, indexed(prefix, a).len() as int) =~= decimal(a));
    assert(indexed(prefix, b).subrange(k as int, indexed(prefix, b).len() as int) =~= decimal(b));
    lemma_decimal_injective(a, b);
}

/// The tag `prefix_i`.
pub open spec fn indexed(prefix: Seq<char>, i: nat) -> Seq<char> {
    prefix + "_"@ + decimal(i)
}

/// The tag `prefix_i`, as the user interface numbers its elements.
pub fn indexed_tag(prefix: &str, i: usize) -> (s: String)
    ensures
        s@ == indexed(prefix@, i as nat),
{
    let digits = usize_to_decimal(i);
    let s = String::from_str(prefix).concat("_").concat(digits.as_str());
    s
}

/// Whether `tags` holds `tag`.
pub fn contains_tag(tags: &Vec<String>, tag: &str) -> (r: bool)
    ensures
        r == has_tag(tags@, tag@),
{
    let wanted = String::from_str(tag);
    let mut i: usize = 0;
    while i < tags.len()
        invariant
            i <= tags.len(),
            wanted@ == tag@,
            forall|j: int| 0 <= j < i ==> tags@[j]@ != tag@,
        decreases tags.len() - i,
    {
        if tags[i] == wanted {
            proof {
                assert(tags_view(tags@)[i as int] == tag@);
            }
            return true;
        }
        i = i + 1;
    }
    proof {
        if tags_view(tags@).contains(tag@) {
            let j = choose|j: int| 0 <= j < tags_view(tags@).len() && tags_view(tags@)[j] == tag@;
            assert(tags@[j]@ == tag@);
        }
    }
    false
}

/// The last index `i` in `[lo, hi)` for which `tags` holds `prefix_i`.
pub open spec fn last_indexed(tags: Seq<String>, prefix: Seq<char>, lo: nat, hi: nat) -> Option<nat>
    decreases hi,
{
    if hi <= lo {
        None
    } else if has_tag(tags, indexed(prefix, (hi - 1) as nat)) {
        Some((hi - 1) as nat)
    } else {
        last_indexed(tags, prefix, lo, (hi - 1) as nat)
    }
}

/// The index `last_indexed` finds lies in the range, the list holds its
/// tag, and no larger index of the range has its tag in the list; when it
/// finds none, no index of the range has.
pub proof fn lemma_last_indexed_found(tags: Seq<String>, prefix: Seq<char>, lo: nat, hi: nat)
    ensures
        last_indexed(tags, prefix, lo, hi) matches Some(i) ==> lo <= i < hi && has_tag(tags, indexed(prefix, i))
            && forall|j: nat| i < j < hi ==> !has_tag(tags, #[trigger] indexed(prefix, j)),
        last_indexed(tags, prefix, lo, hi) is None ==> forall|j: nat| lo <= j < hi ==> !has_tag(tags, #[trigger] indexed(prefix, j)),
    decreases hi,
{
    if hi > lo && !has_tag(tags, indexed(prefix, (hi - 1) as nat)) {
        lemma_last_indexed_found(tags, prefix, lo, (hi - 1) as nat);
    }
}

/// The last index `i` in `[lo, hi)` for which `tags` holds `prefix_i`.
pub fn find_last_indexed(tags: &Vec<String>, prefix: &str, lo: usize, hi: usize) -> (r: Option<usize>)
    ensures
        r matches Some(i) ==> last_indexed(tags@, prefix@, lo as nat, hi as nat) == Some(i as nat) && lo <= i < hi
            && has_tag(tags@, indexed(prefix@, i as nat))
            && forall|j: nat| i < j < hi ==> !has_tag(tags@, #[trigger] indexed(prefix@, j)),
        r is None ==> forall|j: nat| lo <= j < hi ==> !has_tag(tags@, #[trigger] indexed(prefix@, j)),
        r is None ==> last_indexed(tags@, prefix@, lo as nat, hi as nat) is None,
{
    let mut found: Option<usize> = None;
    if hi <= lo {
        return None;
    }
    let mut i: usize = lo;
    while i < hi
        invariant
            lo <= i <= hi,
            found matches Some(f) ==> last_indexed(tags@, prefix@, lo as nat, i as nat) == Some(f as nat) && lo <= f < i,
            found is None ==> last_indexed(tags@, prefix@, lo as nat, i as nat) is None,
        decreases hi - i,
    {
        let tag = indexed_tag(prefix, i);
        if contains_tag(tags, tag.as_str()) {
            found = Some(i);
        }
        i = i + 1;
    }
    proof {
        lemma_last_indexed_found(tags@, prefix@, lo as nat, hi as nat);
    }
    found
}

/// Converts a list of string slices to owned strings.
pub trait ToVecString {
    fn to_vec_string(&self) -> Vec<String>;
}

impl ToVecString for Vec<&str> {
    fn to_vec_string(&self) -> (r: Vec<String>)
        ensures
            tags_view(r@) == self@.map_values(|s: &str| s@),
    {
        let mut r: Vec<String> = Vec::new();
        let mut i: usize = 0;
        while i < self.len()
            invariant
                i <= self.len(),
                tags_view(r@) == self@.take(i as int).map_values(|s: &str| s@),
            decreases self.len() - i,
        {
            let s = String::from_str(self[i]);
            proof {
                assert(self@.take(i + 1) =~= self@.take(i as int).push(self@[i as int]));
                assert(tags_view(r@.push(s)) =~= tags_view(r@).push(s@));
                assert(self@.take(i + 1).map_values(|s: &str| s@) =~= self@.take(i as int).map_values(|s: &str| s@).push(self@[i as int]@));
            }
            r.push(s);
            i = i + 1;
        }
        proof {
            assert(self@.take(self.len() as int) =~= self@);
        }
        r
    }
}

} // verus!
