//! Small pure helpers: the snake-case name filter, the bounded edit distance
//! used for "similar name" suggestions, and the suggestion search itself.

use vstd::prelude::*;
use vstd::string::StrSliceExecFns;

verus! {

/// True for characters allowed in a snake-case name.
pub open spec fn is_snake_char(c: char) -> bool {
    ('a' <= c && c <= 'z') || ('0' <= c && c <= '9') || c == '_'
}

/// True when every character of the string is an ASCII lowercase letter, an
/// ASCII digit or an underscore.
pub fn is_snake_case(s: &str) -> (r: bool)
    ensures
        r == forall|i: int| 0 <= i < s@.len() ==> is_snake_char(#[trigger] s@[i]),
{
    let n = s.unicode_len();
    let mut i: usize = 0;
    while i < n
        invariant
            0 <= i <= n,
            n == s@.len(),
            forall|j: int| 0 <= j < i ==> is_snake_char(#[trigger] s@[j]),
        decreases n - i,
    {
        let c = s.get_char(i);
        if !(('a' <= c && c <= 'z') || ('0' <= c && c <= '9') || c == '_') {
            return false;
        }
        i += 1;
    }
    true
}

/// Two sequences of equal length that disagree at exactly one position.
pub open spec fn differs_at_one(a: Seq<char>, b: Seq<char>) -> bool {
    &&& a.len() == b.len()
    &&& exists|i: int|
        0 <= i < a.len() && (#[trigger] a[i]) != b[i] && (forall|j: int|
            0 <= j < a.len() && j != i ==> #[trigger] a[j] == b[j])
}

/// `b` is `a` with one extra character inserted at some position.
pub open spec fn inserts_one(a: Seq<char>, b: Seq<char>) -> bool {
    &&& b.len() == a.len() + 1
    &&& exists|i: int|
        0 <= i <= a.len() && b =~= #[trigger] a.subrange(0, i) + seq![b[i]] + a.subrange(
            i,
            a.len() as int,
        )
}

/// `b` is `a` with two adjacent, distinct characters swapped.
pub open spec fn swaps_adjacent(a: Seq<char>, b: Seq<char>) -> bool {
    &&& a.len() == b.len()
    &&& exists|i: int|
        0 <= i && i + 1 < a.len() && a[i] != a[i + 1] && b =~= (#[trigger] a.update(
            i,
            a[i + 1],
        )).update(i + 1, a[i])
}

/// The bounded edit distance: 0 for equal sequences, 1 for a single
/// substitution or a single insertion or deletion, 2 for a swap of two
/// adjacent characters, and nothing for anything farther apart.
pub open spec fn spec_distance(a: Seq<char>, b: Seq<char>) -> Option<nat> {
    if a =~= b {
        Some(0nat)
    } else if differs_at_one(a, b) || inserts_one(a, b) || inserts_one(b, a) {
        Some(1nat)
    } else if swaps_adjacent(a, b) {
        Some(2nat)
    } else {
        None
    }
}

/// Computes the bounded edit distance between two character sequences.
pub fn distance(s0: &[char], s1: &[char]) -> (r: Option<usize>)
    ensures
        r matches Some(d) ==> spec_distance(s0@, s1@) == Some(d as nat),
        r is None ==> spec_distance(s0@, s1@) is None,
{
    let (a, b) = if s0.len() > s1.len() {
        (s1, s0)
    } else {
        (s0, s1)
    };
    proof {
        lemma_spec_distance_symmetric(s0@, s1@);
    }
    let r = distance_ordered(a, b);
    r
}

/// Helper for `distance`: assumes the first sequence is no longer than the
/// second.
fn distance_ordered(a: &[char], b: &[char]) -> (r: Option<usize>)
    requires
        a@.len() <= b@.len(),
    ensures
        r matches Some(d) ==> spec_distance(a@, b@) == Some(d as nat),
        r is None ==> spec_distance(a@, b@) is None,
{
    let la = a.len();
    let lb = b.len();
    if lb - la > 1 {
        proof {
            lemma_distance_far(a@, b@);
        }
        return None;
    }
    let mut start: usize = 0;
    while start < la && start < lb && a[start] == b[start]
        invariant
            0 <= start <= la,
            start <= lb,
            la == a@.len(),
            lb == b@.len(),
            la <= lb,
            forall|j: int| 0 <= j < start ==> #[trigger] a@[j] == b@[j],
        decreases la - start,
    {
        start += 1;
    }
    let mut end: usize = 0;
    while start + end < la && start + end < lb && a[la - end - 1] == b[lb - end - 1]
        invariant
            0 <= end,
            start + end <= la,
            start + end <= lb,
            la == a@.len(),
            lb == b@.len(),
            la <= lb,
            forall|j: int| 0 <= j < end ==> #[trigger] a@[la - 1 - j] == b@[lb - 1 - j],
        decreases la - start - end,
    {
        end += 1;
    }
    if la == lb {
        if start + end == la {
            proof {
                lemma_case_equal(a@, b@, start as int, end as int);
            }
            return Some(0);
        }
        if start + end + 1 == la {
            proof {
                lemma_case_subst(a@, b@, start as int, end as int);
            }
            return Some(1);
        }
        if start + end + 2 == la && a[start] == b[start + 1] && a[start + 1] == b[start] {
            proof {
                lemma_case_swap(a@, b@, start as int, end as int);
            }
            return Some(2);
        }
    } else if start + end == la {
        proof {
            lemma_case_insert(a@, b@, start as int, end as int);
        }
        return Some(1);
    }
    proof {
        lemma_case_none(
            a@,
            b@,
            start as int,
            end as int,
            start < la && start < lb,
            start + end < la && start + end < lb,
        );
    }
    None
}

/// The bounded distance is symmetric in its arguments.
#[verifier::rlimit(50)]
proof fn lemma_spec_distance_symmetric(a: Seq<char>, b: Seq<char>)
    ensures
        spec_distance(a, b) == spec_distance(b, a),
{
    assert(differs_at_one(a, b) == differs_at_one(b, a)) by {
        if differs_at_one(a, b) {
            let i = choose|i: int|
                0 <= i < a.len() && (#[trigger] a[i]) != b[i] && (forall|j: int|
                    0 <= j < a.len() && j != i ==> #[trigger] a[j] == b[j]);
            assert(0 <= i < b.len() && b[i] != a[i] && (forall|j: int|
                0 <= j < b.len() && j != i ==> b[j] == a[j]));
        }
        if differs_at_one(b, a) {
            let i = choose|i: int|
                0 <= i < b.len() && (#[trigger] b[i]) != a[i] && (forall|j: int|
                    0 <= j < b.len() && j != i ==> #[trigger] b[j] == a[j]);
            assert(0 <= i < a.len() && a[i] != b[i] && (forall|j: int|
                0 <= j < a.len() && j != i ==> a[j] == b[j]));
        }
    }
    assert(swaps_adjacent(a, b) == swaps_adjacent(b, a)) by {
        lemma_swaps_adjacent_symmetric(a, b);
        lemma_swaps_adjacent_symmetric(b, a);
    }
}

proof fn lemma_swaps_adjacent_symmetric(a: Seq<char>, b: Seq<char>)
    ensures
        swaps_adjacent(a, b) ==> swaps_adjacent(b, a),
{
    if swaps_adjacent(a, b) {
        let i = choose|i: int|
            0 <= i && i + 1 < a.len() && a[i] != a[i + 1] && b =~= (#[trigger] a.update(
                i,
                a[i + 1],
            )).update(i + 1, a[i]);
        assert(b[i] == a[i + 1] && b[i + 1] == a[i]);
        assert(a =~= b.update(i, b[i + 1]).update(i + 1, b[i]));
    }
}

/// Sequences whose lengths differ by two or more are farther apart than the
/// bounded distance measures.
proof fn lemma_distance_far(a: Seq<char>, b: Seq<char>)
    requires
        a.len() + 1 < b.len(),
    ensures
        spec_distance(a, b) is None,
{
}

proof fn lemma_case_equal(a: Seq<char>, b: Seq<char>, start: int, end: int)
    requires
        a.len() == b.len(),
        0 <= start,
        0 <= end,
        start + end == a.len(),
        forall|j: int| 0 <= j < start ==> #[trigger] a[j] == b[j],
        forall|j: int| 0 <= j < end ==> #[trigger] a[a.len() - 1 - j] == b[b.len() - 1 - j],
    ensures
        spec_distance(a, b) == Some(0nat),
{
    assert forall|j: int| 0 <= j < a.len() implies a[j] == b[j] by {
        if j >= start {
            let e = a.len() - 1 - j;
            assert(a[a.len() - 1 - e] == b[b.len() - 1 - e]);
        }
    }
    assert(a =~= b);
}

proof fn lemma_case_subst(a: Seq<char>, b: Seq<char>, start: int, end: int)
    requires
        a.len() == b.len(),
        0 <= start,
        0 <= end,
        start + end + 1 == a.len(),
        forall|j: int| 0 <= j < start ==> #[trigger] a[j] == b[j],
        forall|j: int| 0 <= j < end ==> #[trigger] a[a.len() - 1 - j] == b[b.len() - 1 - j],
        start < a.len() ==> a[start] != b[start],
    ensures
        spec_distance(a, b) == Some(1nat),
{
    assert(a[start] != b[start]);
    assert forall|j: int| 0 <= j < a.len() && j != start implies a[j] == b[j] by {
        if j > start {
            let e = a.len() - 1 - j;
            assert(a[a.len() - 1 - e] == b[b.len() - 1 - e]);
        }
    }
    assert(differs_at_one(a, b));
    assert(!(a =~= b));
}

proof fn lemma_case_swap(a: Seq<char>, b: Seq<char>, start: int, end: int)
    requires
        a.len() == b.len(),
        0 <= start,
        0 <= end,
        start + end + 2 == a.len(),
        forall|j: int| 0 <= j < start ==> #[trigger] a[j] == b[j],
        forall|j: int| 0 <= j < end ==> #[trigger] a[a.len() - 1 - j] == b[b.len() - 1 - j],
        start < a.len() ==> a[start] != b[start],
        a[start] == b[start + 1],
        a[start + 1] == b[start],
    ensures
        spec_distance(a, b) == Some(2nat),
{
    assert(a[start] != b[start]);
    assert(a[start] != a[start + 1]);
    assert forall|j: int| 0 <= j < a.len() && j != start && j != start + 1 implies a[j] == b[j] by {
        if j > start + 1 {
            let e = a.len() - 1 - j;
            assert(a[a.len() - 1 - e] == b[b.len() - 1 - e]);
        }
    }
    assert(b =~= a.update(start, a[start + 1]).update(start + 1, a[start]));
    assert(swaps_adjacent(a, b));
    assert(!(a =~= b));
    assert(!differs_at_one(a, b)) by {
        if differs_at_one(a, b) {
            let i = choose|i: int|
                0 <= i < a.len() && (#[trigger] a[i]) != b[i] && (forall|j: int|
                    0 <= j < a.len() && j != i ==> #[trigger] a[j] == b[j]);
            assert(a[start] != b[start] && a[start + 1] != b[start + 1]);
        }
    }
}

proof fn lemma_case_insert(a: Seq<char>, b: Seq<char>, start: int, end: int)
    requires
        a.len() < b.len(),
        b.len() <= a.len() + 1,
        0 <= start,
        0 <= end,
        start + end == a.len(),
        start <= a.len(),
        forall|j: int| 0 <= j < start ==> #[trigger] a[j] == b[j],
        forall|j: int| 0 <= j < end ==> #[trigger] a[a.len() - 1 - j] == b[b.len() - 1 - j],
    ensures
        spec_distance(a, b) == Some(1nat),
{
    assert(b.len() == a.len() + 1);
    assert(b =~= a.subrange(0, start) + seq![b[start]] + a.subrange(start, a.len() as int)) by {
        assert forall|j: int| 0 <= j < b.len() implies b[j] == (a.subrange(0, start) + seq![
            b[start],
        ] + a.subrange(start, a.len() as int))[j] by {
            if j < start {
            } else if j > start {
                let e = b.len() - 1 - j;
                assert(a[a.len() - 1 - e] == b[b.len() - 1 - e]);
            }
        }
    }
    assert(inserts_one(a, b));
}

/// When the trims leave more than the bounded distance can account for,
/// none of the distance predicates holds.
proof fn lemma_case_none(
    a: Seq<char>,
    b: Seq<char>,
    start: int,
    end: int,
    start_hit_mismatch: bool,
    end_hit_mismatch: bool,
)
    requires
        a.len() <= b.len(),
        b.len() <= a.len() + 1,
        0 <= start,
        0 <= end,
        start + end <= a.len(),
        forall|j: int| 0 <= j < start ==> #[trigger] a[j] == b[j],
        forall|j: int| 0 <= j < end ==> #[trigger] a[a.len() - 1 - j] == b[b.len() - 1 - j],
        start_hit_mismatch == (start < a.len() && start < b.len()),
        end_hit_mismatch == (start + end < a.len() && start + end < b.len()),
        start_hit_mismatch ==> a[start] != b[start],
        end_hit_mismatch ==> a[a.len() - 1 - end] != b[b.len() - 1 - end],
        a.len() == b.len() ==> start + end + 1 < a.len() && !(start + end + 2 == a.len() && a[start]
            == b[start + 1] && a[start + 1] == b[start]),
        a.len() < b.len() ==> start + end < a.len(),
    ensures
        spec_distance(a, b) is None,
{
    if a.len() == b.len() {
        assert(start < a.len());
        assert(start + end < a.len());
        assert(a[start] != b[start]);
        assert(a[a.len() - 1 - end] != b[b.len() - 1 - end]);
        assert(!(a =~= b));
        assert(!differs_at_one(a, b)) by {
            if differs_at_one(a, b) {
                let i = choose|i: int|
                    0 <= i < a.len() && (#[trigger] a[i]) != b[i] && (forall|j: int|
                        0 <= j < a.len() && j != i ==> #[trigger] a[j] == b[j]);
                assert(a[start] != b[start]);
                assert(a[a.len() - 1 - end] != b[a.len() - 1 - end]);
                assert(start != a.len() - 1 - end);
            }
        }
        assert(!swaps_adjacent(a, b)) by {
            if swaps_adjacent(a, b) {
                let i = choose|i: int|
                    0 <= i && i + 1 < a.len() && a[i] != a[i + 1] && b =~= (#[trigger] a.update(
                        i,
                        a[i + 1],
                    )).update(i + 1, a[i]);
                assert(forall|j: int| 0 <= j < a.len() && j != i && j != i + 1 ==> a[j] == b[j]);
                assert(a[i] != b[i] && a[i + 1] != b[i + 1]);
                assert(i == start) by {
                    assert(i >= start) by {
                        if i < start {
                            assert(a[i] == b[i]);
                        }
                    }
                    assert(a[start] != b[start]);
                    assert(start == i || start == i + 1);
                }
                let p2 = a.len() - 1 - end;
                assert(a[p2] != b[p2]);
                assert(p2 == i || p2 == i + 1);
                assert(p2 == i + 1) by {
                    if p2 == i {
                        assert(end >= 1);
                        assert(a[a.len() - 1 - (end - 1)] == b[a.len() - 1 - (end - 1)]);
                        assert(a.len() - 1 - (end - 1) == i + 1);
                    }
                }
                assert(start + end + 2 == a.len());
                assert(a[start] == b[start + 1] && a[start + 1] == b[start]);
            }
        }
    } else {
        assert(b.len() == a.len() + 1);
        assert(start + end < a.len());
        assert(a[start] != b[start]);
        assert(a[a.len() - 1 - end] != b[b.len() - 1 - end]);
        assert(!inserts_one(a, b)) by {
            if inserts_one(a, b) {
                let i = choose|i: int|
                    0 <= i <= a.len() && b =~= #[trigger] a.subrange(0, i) + seq![b[i]]
                        + a.subrange(i, a.len() as int);
                assert(forall|j: int| 0 <= j < i ==> a[j] == b[j]);
                assert(forall|j: int| i <= j < a.len() ==> a[j] == b[j + 1]);
                if i <= start {
                    assert(a.len() - 1 - end >= i);
                    assert(a[a.len() - 1 - end] == b[a.len() - end]);
                    assert(b.len() - 1 - end == a.len() - end);
                } else {
                    assert(a[start] == b[start]);
                }
            }
        }
    }
}

/// The character sequences of a list of names.
pub open spec fn strs_view(names: Seq<String>) -> Seq<Seq<char>> {
    names.map_values(|s: String| s@)
}

/// One step short of the suggestion search: fold over the names from index
/// `i` with the best candidate so far and its distance. A name at the same
/// distance as a different current best suppresses the suggestion.
pub open spec fn find_similar_from(
    names: Seq<Seq<char>>,
    q: Seq<char>,
    i: int,
    best: Option<Seq<char>>,
    best_d: nat,
) -> Option<Seq<char>>
    decreases names.len() - i,
{
    if i < 0 || i >= names.len() {
        best
    } else {
        match spec_distance(q, names[i]) {
            Some(d) => {
                let nb = if d < best_d {
                    Some(names[i])
                } else {
                    best
                };
                let nd = if d < best_d {
                    d
                } else {
                    best_d
                };
                if d == nd && Some(names[i]) != nb {
                    None
                } else {
                    find_similar_from(names, q, i + 1, nb, nd)
                }
            },
            None => find_similar_from(names, q, i + 1, best, best_d),
        }
    }
}

/// The declared name suggested for a misspelled one: the first name at the
/// smallest bounded distance from the query, unless a different name ties
/// with it.
pub open spec fn spec_find_similar(names: Seq<Seq<char>>, q: Seq<char>) -> Option<Seq<char>> {
    find_similar_from(names, q, 0, None, 3)
}

/// The characters of a string collected into a vector.
pub fn str_chars(s: &str) -> (r: Vec<char>)
    ensures
        r@ == s@,
{
    let n = s.unicode_len();
    let mut r: Vec<char> = Vec::new();
    let mut i: usize = 0;
    while i < n
        invariant
            0 <= i <= n,
            n == s@.len(),
            r@ == s@.subrange(0, i as int),
        decreases n - i,
    {
        r.push(s.get_char(i));
        proof {
            assert(r@ =~= s@.subrange(0, i + 1));
        }
        i += 1;
    }
    proof {
        assert(r@ =~= s@);
    }
    r
}

/// Searches the declared names for one similar to the given identifier,
/// suppressing the suggestion when two different names are equally close.
pub fn find_similar_name(names: &Vec<String>, ident: &str) -> (r: Option<String>)
    ensures
        (r matches Some(s) ==> spec_find_similar(strs_view(names@), ident@) == Some(s@)),
        r is None ==> spec_find_similar(strs_view(names@), ident@) is None,
{
    let q = str_chars(ident);
    let mut best: Option<String> = None;
    let mut best_d: usize = 3;
    let mut i: usize = 0;
    while i < names.len()
        invariant
            0 <= i <= names@.len(),
            q@ == ident@,
            best_d <= 3,
            best is None ==> best_d == 3,
            (match best {
                Some(s) => find_similar_from(
                    strs_view(names@),
                    ident@,
                    i as int,
                    Some(s@),
                    best_d as nat,
                ) == spec_find_similar(strs_view(names@), ident@),
                None => find_similar_from(strs_view(names@), ident@, i as int, None, best_d as nat)
                    == spec_find_similar(strs_view(names@), ident@),
            }),
        decreases names@.len() - i,
    {
        let name_chars = str_chars(names[i].as_str());
        let d_opt = distance(q.as_slice(), name_chars.as_slice());
        proof {
            assert(strs_view(names@)[i as int] == names@[i as int]@);
        }
        if let Some(d) = d_opt {
            proof {
                assert(spec_distance(ident@, strs_view(names@)[i as int]) == Some(d as nat));
            }
            if d < best_d {
                best_d = d;
                best = Some(names[i].clone());
            }
            let tie = match &best {
                Some(b) => d == best_d && !str_eq(names[i].as_str(), b.as_str()),
                None => false,
            };
            if tie {
                return None;
            }
        } else {
            proof {
                assert(spec_distance(ident@, strs_view(names@)[i as int]) is None);
            }
        }
        proof {
            reveal_with_fuel(find_similar_from, 2);
        }
        i += 1;
    }
    best
}

/// Compares two strings character for character.
pub fn str_eq(a: &str, b: &str) -> (r: bool)
    ensures
        r == (a@ == b@),
{
    let la = a.unicode_len();
    let lb = b.unicode_len();
    if la != lb {
        return false;
    }
    let mut i: usize = 0;
    while i < la
        invariant
            0 <= i <= la,
            la == a@.len(),
            la == b@.len(),
            forall|j: int| 0 <= j < i ==> a@[j] == b@[j],
        decreases la - i,
    {
        if a.get_char(i) != b.get_char(i) {
            return false;
        }
        i += 1;
    }
    proof {
        assert(a@ =~= b@);
    }
    true
}

} // verus!
