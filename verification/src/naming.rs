use vstd::prelude::*;
use vstd::string::{StrSliceExecFns, StringExecFns};

verus! {

broadcast use
    vstd::set::group_set_axioms,
    vstd::seq_lib::seq_to_set_is_finite;

/// The decimal digit character of `d` (0 through 9).
pub open spec fn digit_char(d: int) -> char {
    if d == 0 {
        '0'
    } else if d == 1 {
        '1'
    } else if d == 2 {
        '2'
    } else if d == 3 {
        '3'
    } else if d == 4 {
        '4'
    } else if d == 5 {
        '5'
    } else if d == 6 {
        '6'
    } else if d == 7 {
        '7'
    } else if d == 8 {
        '8'
    } else {
        '9'
    }
}

/// The decimal rendering of `n`, most significant digit first, without
/// leading zeroes (except for zero itself).
pub open spec fn dec_spec(n: nat) -> Seq<char>
    decreases n,
{
    if n < 10 {
        seq![digit_char(n as int)]
    } else {
        dec_spec(n / 10) + seq![digit_char((n % 10) as int)]
    }
}

/// Decimal renderings are never empty, and are one digit long exactly for
/// numbers below ten.
proof fn lemma_dec_spec_len(n: nat)
    ensures
        dec_spec(n).len() >= 1,
        n < 10 <==> dec_spec(n).len() == 1,
    decreases n,
{
    if n >= 10 {
        lemma_dec_spec_len(n / 10);
    }
}

/// Distinct numbers have distinct decimal renderings.
proof fn lemma_dec_spec_injective(a: nat, b: nat)
    requires
        dec_spec(a) == dec_spec(b),
    ensures
        a == b,
    decreases a + b,
{
    lemma_dec_spec_len(a);
    lemma_dec_spec_len(b);
    if a < 10 && b < 10 {
        assert(dec_spec(a)[0] == digit_char(a as int));
        assert(dec_spec(b)[0] == digit_char(b as int));
    } else if a >= 10 && b >= 10 {
        let ta = dec_spec(a / 10);
        let tb = dec_spec(b / 10);
        assert(dec_spec(a).last() == digit_char((a % 10) as int));
        assert(dec_spec(b).last() == digit_char((b % 10) as int));
        assert(a % 10 == b % 10);
        assert(dec_spec(a).drop_last() =~= ta);
        assert(dec_spec(b).drop_last() =~= tb);
        lemma_dec_spec_injective(a / 10, b / 10);
        assert(a == 10 * (a / 10) + a % 10);
        assert(b == 10 * (b / 10) + b % 10);
    } else {
        // One rendering has a single digit, the other at least two.
        assert(false);
    }
}

/// The digit character of `d`, as a one-character string slice.
fn digit_str(d: u128) -> (r: &'static str)
    requires
        d < 10,
    ensures
        r@ == seq![digit_char(d as int)],
{
    if d == 0 {
        proof {
            reveal_strlit("0");
        }
        assert("0"@ =~= seq![digit_char(0)]);
        "0"
    } else if d == 1 {
        proof {
            reveal_strlit("1");
        }
        assert("1"@ =~= seq![digit_char(1)]);
        "1"
    } else if d == 2 {
        proof {
            reveal_strlit("2");
        }
        assert("2"@ =~= seq![digit_char(2)]);
        "2"
    } else if d == 3 {
        proof {
            reveal_strlit("3");
        }
        assert("3"@ =~= seq![digit_char(3)]);
        "3"
    } else if d == 4 {
        proof {
            reveal_strlit("4");
        }
        assert("4"@ =~= seq![digit_char(4)]);
        "4"
    } else if d == 5 {
        proof {
            reveal_strlit("5");
        }
        assert("5"@ =~= seq![digit_char(5)]);
        "5"
    } else if d == 6 {
        proof {
            reveal_strlit("6");
        }
        assert("6"@ =~= seq![digit_char(6)]);
        "6"
    } else if d == 7 {
        proof {
            reveal_strlit("7");
        }
        assert("7"@ =~= seq![digit_char(7)]);
        "7"
    } else if d == 8 {
        proof {
            reveal_strlit("8");
        }
        assert("8"@ =~= seq![digit_char(8)]);
        "8"
    } else {
        proof {
            reveal_strlit("9");
        }
        assert("9"@ =~= seq![digit_char(9)]);
        "9"
    }
}

/// Renders `n` in decimal.
pub fn u128_to_string(n: u128) -> (r: String)
    ensures
        r@ == dec_spec(n as nat),
    decreases n,
{
    if n < 10 {
        let d = digit_str(n);
        d.to_owned()
    } else {
        let mut s = u128_to_string(n / 10);
        s.append(digit_str(n % 10));
        s
    }
}

/// The index of the last occurrence of `c` in `f`, or -1 when `c` does not
/// occur.
pub open spec fn last_index(f: Seq<char>, c: char) -> int
    decreases f.len(),
{
    if f.len() == 0 {
        -1
    } else if f.last() == c {
        f.len() - 1
    } else {
        last_index(f.drop_last(), c)
    }
}

/// What `last_index` returns: a valid index of `c` with nothing but other
/// characters after it, or -1 when `c` is absent.
pub proof fn lemma_last_index(f: Seq<char>, c: char)
    ensures
        last_index(f, c) >= 0 ==> {
            &&& last_index(f, c) < f.len()
            &&& f[last_index(f, c)] == c
            &&& forall|j: int| last_index(f, c) < j < f.len() ==> f[j] != c
        },
        last_index(f, c) == -1 ==> forall|j: int| 0 <= j < f.len() ==> f[j] != c,
    decreases f.len(),
{
    if f.len() > 0 && f.last() != c {
        lemma_last_index(f.drop_last(), c);
        assert(forall|j: int|
            0 <= j < f.drop_last().len() ==> f.drop_last()[j] == #[trigger] f[j]);
    }
}

/// An index of `c` with no occurrence of `c` after it is the last index.
proof fn lemma_last_index_unique(f: Seq<char>, c: char, i: int)
    requires
        0 <= i < f.len(),
        f[i] == c,
        forall|j: int| i < j < f.len() ==> f[j] != c,
    ensures
        last_index(f, c) == i,
    decreases f.len(),
{
    if i == f.len() - 1 {
        assert(f.last() == c);
    } else {
        assert(f.last() != c);
        assert(forall|j: int|
            0 <= j < f.drop_last().len() ==> f.drop_last()[j] == #[trigger] f[j]);
        lemma_last_index_unique(f.drop_last(), c, i);
    }
}

/// `c` occurring nowhere makes the last index -1.
proof fn lemma_last_index_absent(f: Seq<char>, c: char)
    requires
        forall|j: int| 0 <= j < f.len() ==> f[j] != c,
    ensures
        last_index(f, c) == -1,
    decreases f.len(),
{
    if f.len() > 0 {
        assert(forall|j: int|
            0 <= j < f.drop_last().len() ==> f.drop_last()[j] == #[trigger] f[j]);
        lemma_last_index_absent(f.drop_last(), c);
    }
}

/// Finds the last occurrence of `c` in `s`.
fn find_last(s: &str, c: char) -> (r: Option<usize>)
    ensures
        match r {
            Some(i) => i as int == last_index(s@, c),
            None => last_index(s@, c) == -1,
        },
{
    let n = s.unicode_len();
    let mut i: usize = n;
    while i > 0
        invariant
            i <= n,
            n == s@.len(),
            forall|j: int| i <= j < n ==> s@[j] != c,
        decreases i,
    {
        if s.get_char(i - 1) == c {
            proof {
                lemma_last_index_unique(s@, c, i - 1);
            }
            return Some(i - 1);
        }
        i = i - 1;
    }
    proof {
        lemma_last_index_absent(s@, c);
    }
    None
}

/// Where the file name starts in a path: right after the last `/`, or at
/// the start when there is none.
pub open spec fn name_start(f: Seq<char>) -> int {
    last_index(f, '/') + 1
}

/// The index of the dot separating stem and extension: the last `.`.
pub open spec fn dot_index(f: Seq<char>) -> int {
    last_index(f, '.')
}

/// A path this naming scheme accepts: its file name has a non-empty stem
/// followed by a dot (and then the extension, possibly empty).
pub open spec fn splittable(f: Seq<char>) -> bool {
    dot_index(f) > name_start(f)
}

/// The file name without directory and extension.
pub open spec fn stem_of(f: Seq<char>) -> Seq<char> {
    f.subrange(name_start(f), dot_index(f))
}

/// The extension: everything after the last dot.
pub open spec fn ext_of(f: Seq<char>) -> Seq<char> {
    f.subrange(dot_index(f) + 1, f.len() as int)
}

/// The i-th alternative name proposed for `f`: `./<stem> (<i>).<ext>`.
pub open spec fn candidate(f: Seq<char>, i: nat) -> Seq<char> {
    "./"@ + stem_of(f) + " ("@ + dec_spec(i) + ")."@ + ext_of(f)
}

/// Distinct indices propose distinct candidate names for the same path.
proof fn lemma_candidate_injective(f: Seq<char>, a: nat, b: nat)
    requires
        candidate(f, a) == candidate(f, b),
    ensures
        a == b,
{
    let prefix = "./"@ + stem_of(f) + " ("@;
    let suffix = ")."@ + ext_of(f);
    let p = prefix.len() as int;
    assert(candidate(f, a) =~= prefix + dec_spec(a) + suffix);
    assert(candidate(f, b) =~= prefix + dec_spec(b) + suffix);
    assert(dec_spec(a).len() == dec_spec(b).len());
    let l = dec_spec(a).len() as int;
    assert(dec_spec(a) =~= (prefix + dec_spec(a) + suffix).subrange(p, p + l));
    assert(dec_spec(b) =~= (prefix + dec_spec(b) + suffix).subrange(p, p + l));
    lemma_dec_spec_injective(a, b);
}

/// At least `i - 1` distinct names are taken when the candidates 1 through
/// `i - 1` are all in `taken`.
proof fn lemma_taken_bound(f: Seq<char>, taken: Seq<Seq<char>>, i: nat)
    requires
        1 <= i,
        forall|j: nat| 1 <= j < i ==> taken.contains(#[trigger] candidate(f, j)),
    ensures
        i - 1 <= taken.len(),
{
    let cands = Seq::<Seq<char>>::new((i - 1) as nat, |k: int| candidate(f, (k + 1) as nat));
    assert forall|x: int, y: int|
        (0 <= x < cands.len() && 0 <= y < cands.len() && x != y) implies cands[x] != cands[y] by {
        if cands[x] == cands[y] {
            lemma_candidate_injective(f, (x + 1) as nat, (y + 1) as nat);
        }
    }
    assert(cands.no_duplicates());
    cands.unique_seq_to_set();
    assert forall|x: Seq<char>| cands.to_set().contains(x) implies taken.to_set().contains(
        x,
    ) by {
        let k = choose|k: int| 0 <= k < cands.len() && cands[k] == x;
        assert(taken.contains(candidate(f, (k + 1) as nat)));
    }
    assert(cands.to_set().subset_of(taken.to_set()));
    vstd::set_lib::lemma_len_subset(cands.to_set(), taken.to_set());
    taken.lemma_cardinality_of_set();
}

/// Whether one of the strings in `v` reads as `s`.
fn contains_string(v: &Vec<String>, s: &str) -> (r: bool)
    ensures
        r == v.deep_view().contains(s@),
{
    let needle = s.to_owned();
    let mut i: usize = 0;
    while i < v.len()
        invariant
            i <= v@.len(),
            needle@ == s@,
            forall|k: int| 0 <= k < i ==> v.deep_view()[k] != s@,
        decreases v@.len() - i,
    {
        if v[i] == needle {
            assert(v.deep_view()[i as int] == s@);
            return true;
        }
        i += 1;
    }
    proof {
        if v.deep_view().contains(s@) {
            let k = choose|k: int| 0 <= k < v.deep_view().len() && v.deep_view()[k] == s@;
            assert(v.deep_view()[k] != s@);
        }
    }
    false
}

/// Builds the candidate name `./<stem> (<i>).<ext>`.
fn make_candidate(stem: &str, ext: &str, i: u128) -> (r: String)
    ensures
        r@ == "./"@ + stem@ + " ("@ + dec_spec(i as nat) + ")."@ + ext@,
{
    let mut s = String::from_str("./");
    s.append(stem);
    s.append(" (");
    let num = u128_to_string(i);
    s.append(num.as_str());
    s.append(").");
    s.append(ext);
    proof {
        assert(s@ =~= "./"@ + stem@ + " ("@ + dec_spec(i as nat) + ")."@ + ext@);
    }
    s
}

/// Picks the name an output file should be written under, given the names
/// that are already taken: the requested name itself when it is free, else
/// `./<stem> (<i>).<ext>` for the smallest index `i >= 1` whose name is
/// free. A requested name that is already taken must have a file name with
/// a non-empty stem and an extension; a free one is returned as it is.
pub fn check_file_availability(filename: &str, existing: &Vec<String>) -> (r: String)
    requires
        existing.deep_view().contains(filename@) ==> splittable(filename@),
    ensures
        !existing.deep_view().contains(filename@) ==> r@ == filename@,
        existing.deep_view().contains(filename@) ==> exists|i: nat|
            {
                &&& 1 <= i
                &&& r@ == #[trigger] candidate(filename@, i)
                &&& !existing.deep_view().contains(candidate(filename@, i))
                &&& forall|j: nat|
                    1 <= j < i ==> existing.deep_view().contains(#[trigger] candidate(filename@, j))
            },
{
    if !contains_string(existing, filename) {
        return filename.to_owned();
    }
    proof {
        lemma_last_index(filename@, '/');
        lemma_last_index(filename@, '.');
    }
    let n = filename.unicode_len();
    let start = match find_last(filename, '/') {
        Some(s) => s + 1,
        None => 0,
    };
    let dot = match find_last(filename, '.') {
        Some(d) => d,
        None => vstd::pervasive::unreached(),
    };
    let stem = filename.substring_char(start, dot);
    let ext = filename.substring_char(dot + 1, n);
    proof {
        assert(stem@ == stem_of(filename@));
        assert(ext@ == ext_of(filename@));
    }
    let elen = existing.len();
    let mut i: u128 = 1;
    let mut cand = make_candidate(stem, ext, i);
    proof {
        assert(cand@ == candidate(filename@, 1));
    }
    while contains_string(existing, cand.as_str())
        invariant
            1 <= i,
            elen == existing@.len(),
            existing.deep_view().len() == existing@.len(),
            i <= existing.deep_view().len() + 1,
            stem@ == stem_of(filename@),
            ext@ == ext_of(filename@),
            cand@ == candidate(filename@, i as nat),
            forall|j: nat|
                1 <= j < i ==> existing.deep_view().contains(#[trigger] candidate(filename@, j)),
        decreases existing.deep_view().len() + 1 - i,
    {
        proof {
            assert(existing.deep_view().contains(candidate(filename@, i as nat)));
            lemma_taken_bound(filename@, existing.deep_view(), (i + 1) as nat);
        }
        i = i + 1;
        cand = make_candidate(stem, ext, i);
        proof {
            assert(cand@ == candidate(filename@, i as nat));
        }
    }
    proof {
        let ghost w = i as nat;
        assert(1 <= w && cand@ == candidate(filename@, w) && !existing.deep_view().contains(
            candidate(filename@, w),
        ) && forall|j: nat|
            1 <= j < w ==> existing.deep_view().contains(#[trigger] candidate(filename@, j)));
    }
    cand
}

} // verus!
