//! Small verified helpers: string comparison, decimal rendering of tag
//! numbers, and first-match lookup over sequences of names.

use vstd::prelude::*;

verus! {

/// Character-wise equality of two string slices.
pub fn str_eq(a: &str, b: &str) -> (r: bool)
    ensures
        r == (a@ == b@),
{
    let alen = a.unicode_len();
    let blen = b.unicode_len();
    if alen != blen {
        proof {
            assert(a@ != b@) by {
                assert(a@.len() != b@.len());
            }
        }
        return false;
    }
    let mut i: usize = 0;
    while i < alen
        invariant
            a@.len() == alen,
            b@.len() == blen,
            alen == blen,
            i <= alen,
            forall|j: int| 0 <= j < i ==> a@[j] == b@[j],
        decreases alen - i,
    {
        if a.get_char(i) != b.get_char(i) {
            return false;
        }
        i += 1;
    }
    proof {
        assert(a@ =~= b@);
    }
    true
}

/// The first position of `name` in `names`, or `-1` if it does not occur.
pub open spec fn first_index<A>(names: Seq<A>, name: A) -> int
    decreases names,
{
    if names.len() == 0 {
        -1
    } else if names[0] == name {
        0
    } else {
        let r = first_index(names.drop_first(), name);
        if r < 0 {
            -1
        } else {
            r + 1
        }
    }
}

pub proof fn lemma_first_index<A>(names: Seq<A>, name: A)
    ensures
        first_index(names, name) >= 0 <==> names.contains(name),
        first_index(names, name) >= 0 ==> {
            let i = first_index(names, name);
            &&& i < names.len()
            &&& names[i] == name
            &&& forall|j: int| 0 <= j < i ==> names[j] != name
        },
        first_index(names, name) < 0 ==> forall|j: int|
            0 <= j < names.len() ==> names[j] != name,
    decreases names,
{
    if names.len() > 0 && names[0] != name {
        lemma_first_index(names.drop_first(), name);
        if first_index(names.drop_first(), name) >= 0 {
            let k = first_index(names.drop_first(), name);
            assert(names[k + 1] == names.drop_first()[k]);
            assert(names.contains(name)) by {
                assert(names[k + 1] == name);
            }
            assert forall|j: int| 0 <= j < k + 1 implies names[j] != name by {
                if j > 0 {
                    assert(names[j] == names.drop_first()[j - 1]);
                }
            }
        } else {
            assert forall|j: int| 0 <= j < names.len() implies names[j] != name by {
                if j > 0 {
                    assert(names[j] == names.drop_first()[j - 1]);
                }
            }
        }
    } else if names.len() > 0 {
        assert(names.contains(name)) by {
            assert(names[0] == name);
        }
    }
}

/// A position that matches, with no match before it, is the first match.
pub proof fn lemma_first_index_is<A>(names: Seq<A>, name: A, i: int)
    requires
        0 <= i < names.len(),
        names[i] == name,
        forall|j: int| 0 <= j < i ==> names[j] != name,
    ensures
        first_index(names, name) == i,
{
    lemma_first_index(names, name);
    assert(names.contains(name)) by {
        assert(names[i] == name);
    }
    let k = first_index(names, name);
    if k < i {
        assert(names[k] == name);
        assert(names[k] != name);
    }
    if k > i {
        assert(names[i] != name);
    }
}

/// Whether `names` holds no entry twice.
pub open spec fn names_unique<A>(names: Seq<A>) -> bool {
    forall|i: int, j: int| 0 <= i < j < names.len() ==> names[i] != names[j]
}

/// In a duplicate-free list, the first match of the entry at `i` is `i` itself.
pub proof fn lemma_first_index_unique<A>(names: Seq<A>, i: int)
    requires
        names_unique(names),
        0 <= i < names.len(),
    ensures
        first_index(names, names[i]) == i,
{
    lemma_first_index(names, names[i]);
    assert(names.contains(names[i])) by {
        assert(names[i] == names[i]);
    }
    let k = first_index(names, names[i]);
    if k < i {
        assert(names[k] == names[i]);
    }
    if k > i {
        assert(names[i] != names[i]);
    }
}

/// How the first match moves under appending one element.
pub proof fn lemma_first_index_push<A>(s: Seq<A>, y: A, x: A)
    ensures
        first_index(s.push(y), x) == if first_index(s, x) >= 0 {
            first_index(s, x)
        } else if x == y {
            s.len() as int
        } else {
            -1
        },
    decreases s,
{
    if s.len() == 0 {
        assert(s.push(y).drop_first() =~= Seq::<A>::empty());
        assert(s.push(y)[0] == y);
        assert(first_index(Seq::<A>::empty(), x) == -1);
    } else {
        lemma_first_index_push(s.drop_first(), y, x);
        assert(s.push(y)[0] == s[0]);
        assert(s.push(y).drop_first() =~= s.drop_first().push(y));
        assert(first_index(s.push(y).drop_first(), x) == first_index(s.drop_first().push(y), x));
        if s[0] == x {
            assert(first_index(s.push(y), x) == 0);
            assert(first_index(s, x) == 0);
        } else {
            if first_index(s.drop_first(), x) >= 0 {
                assert(first_index(s, x) == first_index(s.drop_first(), x) + 1);
                assert(first_index(s.push(y), x) == first_index(s.drop_first().push(y), x) + 1);
            } else {
                assert(first_index(s, x) == -1);
                if x == y {
                    assert(first_index(s.drop_first().push(y), x) == s.drop_first().len());
                    assert(first_index(s.push(y), x) == s.len());
                } else {
                    assert(first_index(s.drop_first().push(y), x) == -1);
                    assert(first_index(s.push(y), x) == -1);
                }
            }
        }
    }
}

/// Mapping commutes with push.
pub proof fn lemma_map_values_push<A, B>(s: Seq<A>, x: A, f: spec_fn(A) -> B)
    ensures
        s.push(x).map_values(f) == s.map_values(f).push(f(x)),
{
    assert(s.push(x).map_values(f) =~= s.map_values(f).push(f(x)));
}

/// The digit character for one decimal digit.
pub open spec fn digit_char(d: nat) -> char {
    if d == 0 { '0' }
    else if d == 1 { '1' }
    else if d == 2 { '2' }
    else if d == 3 { '3' }
    else if d == 4 { '4' }
    else if d == 5 { '5' }
    else if d == 6 { '6' }
    else if d == 7 { '7' }
    else if d == 8 { '8' }
    else { '9' }
}

/// The decimal rendering of `n`, most significant digit first.
pub open spec fn dec_seq(n: nat) -> Seq<char>
    decreases n,
{
    if n < 10 {
        seq![digit_char(n)]
    } else {
        dec_seq(n / 10) + seq![digit_char(n % 10)]
    }
}

fn digit_str(d: u32) -> (r: &'static str)
    requires
        d < 10,
    ensures
        r@ == seq![digit_char(d as nat)],
{
    proof {
        reveal_strlit("0");
        reveal_strlit("1");
        reveal_strlit("2");
        reveal_strlit("3");
        reveal_strlit("4");
        reveal_strlit("5");
        reveal_strlit("6");
        reveal_strlit("7");
        reveal_strlit("8");
        reveal_strlit("9");
    }
    if d == 0 { "0" }
    else if d == 1 { "1" }
    else if d == 2 { "2" }
    else if d == 3 { "3" }
    else if d == 4 { "4" }
    else if d == 5 { "5" }
    else if d == 6 { "6" }
    else if d == 7 { "7" }
    else if d == 8 { "8" }
    else { "9" }
}

/// Renders `n` in decimal.
pub fn u32_to_string(n: u32) -> (r: String)
    ensures
        r@ == dec_seq(n as nat),
    decreases n,
{
    if n < 10 {
        let mut s = String::new();
        s.append(digit_str(n));
        proof {
            assert(s@ =~= dec_seq(n as nat));
        }
        s
    } else {
        let mut s = u32_to_string(n / 10);
        s.append(digit_str(n % 10));
        proof {
            assert(s@ =~= dec_seq(n as nat));
        }
        s
    }
}

} // verus!
