//! Path model: paths are strings, a component boundary is `'/'`.
//!
//! Spec functions pin down the pieces the engine reads off a path — the last
//! separator, the file name, the parent, a joined child path — and the shape
//! of a disambiguated destination name, where a collision counter replaces
//! the current extension (so `report.txt` becomes `report.1`).

use vstd::prelude::*;

verus! {

/// Index of the last occurrence of `c` in `s`, or -1 if `c` does not occur.
pub open spec fn last_index_of(s: Seq<char>, c: char) -> int
    decreases s.len(),
{
    if s.len() == 0 {
        -1
    } else if s[s.len() - 1] == c {
        s.len() - 1
    } else {
        last_index_of(s.drop_last(), c)
    }
}

/// `last_index_of` points at an occurrence of `c`, and nothing after it is `c`.
pub proof fn lemma_last_index_of(s: Seq<char>, c: char)
    ensures
        -1 <= last_index_of(s, c) < s.len(),
        last_index_of(s, c) >= 0 ==> s[last_index_of(s, c)] == c,
        forall|i: int| last_index_of(s, c) < i < s.len() ==> s[i] != c,
    decreases s.len(),
{
    if s.len() == 0 {
    } else if s[s.len() - 1] == c {
    } else {
        lemma_last_index_of(s.drop_last(), c);
        assert forall|i: int| last_index_of(s, c) < i < s.len() implies s[i] != c by {
            if i < s.len() - 1 {
                assert(s.drop_last()[i] == s[i]);
            }
        }
    }
}

/// An index at an occurrence of `c` with none after it is the last one.
pub proof fn lemma_last_index_of_unique(s: Seq<char>, c: char, k: int)
    requires
        0 <= k < s.len(),
        s[k] == c,
        forall|i: int| k < i < s.len() ==> s[i] != c,
    ensures
        last_index_of(s, c) == k,
    decreases s.len(),
{
    if s[s.len() - 1] == c {
        assert(k == s.len() - 1);
    } else {
        assert(k < s.len() - 1);
        assert(s.drop_last()[k] == s[k]);
        assert forall|i: int| k < i < s.drop_last().len() implies s.drop_last()[i] != c by {
            assert(s.drop_last()[i] == s[i]);
        }
        lemma_last_index_of_unique(s.drop_last(), c, k);
    }
}

/// If `c` occurs nowhere in `s`, `last_index_of` is -1.
pub proof fn lemma_last_index_of_absent(s: Seq<char>, c: char)
    requires
        forall|i: int| 0 <= i < s.len() ==> s[i] != c,
    ensures
        last_index_of(s, c) == -1,
{
    lemma_last_index_of(s, c);
}

/// Index of the last path separator in `s`, or -1 if `s` has none.
pub open spec fn last_sep(s: Seq<char>) -> int {
    last_index_of(s, '/')
}

/// The component after the last separator; the whole string when there is none.
pub open spec fn file_name_of(s: Seq<char>) -> Seq<char> {
    s.subrange(last_sep(s) + 1, s.len() as int)
}

/// Everything before the last separator; the root path when the last
/// separator is the leading character. Meaningful only when `s` has one.
pub open spec fn parent_of(s: Seq<char>) -> Seq<char> {
    if last_sep(s) == 0 {
        seq!['/']
    } else {
        s.subrange(0, last_sep(s))
    }
}

/// `base` extended with the child component `name`.
pub open spec fn join_path(base: Seq<char>, name: Seq<char>) -> Seq<char> {
    if base.len() > 0 && base[base.len() - 1] == '/' {
        base + name
    } else {
        base + seq!['/'] + name
    }
}

/// `p` equals `base` or lies below it at a component boundary.
pub open spec fn path_starts_with(p: Seq<char>, base: Seq<char>) -> bool {
    p == base || (p.len() > base.len() && p.subrange(0, base.len() as int) == base && p[
        base.len() as int
    ] == '/')
}

/// A child joined under a base keeps that base as its parent and its own
/// name: an entry staged under a (possibly disambiguated) directory lands
/// under exactly that directory.
pub proof fn lemma_join_parent(base: Seq<char>, name: Seq<char>)
    requires
        base.len() > 0,
        base[base.len() - 1] != '/',
        forall|i: int| 0 <= i < name.len() ==> name[i] != '/',
    ensures
        parent_of(join_path(base, name)) == base,
        file_name_of(join_path(base, name)) == name,
{
    let j = join_path(base, name);
    assert(j =~= base + seq!['/'] + name);
    assert(j[base.len() as int] == '/');
    assert forall|i: int| base.len() < i < j.len() implies j[i] != '/' by {
        assert(j[i] == name[i - base.len() - 1]);
    }
    lemma_last_index_of_unique(j, '/', base.len() as int);
    assert(parent_of(j) =~= base);
    assert(file_name_of(j) =~= name);
}

/// Children of two differently named staged directories never collide: the
/// joined destinations are equal only when base and name both are. This is
/// why disambiguating a directory's own staged name is enough to keep every
/// child beneath it recoverable.
pub proof fn lemma_join_distinct(b1: Seq<char>, n1: Seq<char>, b2: Seq<char>, n2: Seq<char>)
    requires
        b1.len() > 0,
        b1[b1.len() - 1] != '/',
        forall|i: int| 0 <= i < n1.len() ==> n1[i] != '/',
        b2.len() > 0,
        b2[b2.len() - 1] != '/',
        forall|i: int| 0 <= i < n2.len() ==> n2[i] != '/',
        join_path(b1, n1) == join_path(b2, n2),
    ensures
        b1 == b2,
        n1 == n2,
{
    lemma_join_parent(b1, n1);
    lemma_join_parent(b2, n2);
}

/// The decimal digit `d` as a character; meaningful for `d < 10`.
pub open spec fn digit_char(d: nat) -> char {
    if d == 0 {
        '0'
    } else if d == 1 {
        '1'
    } else if d == 2 {
        '2'
    } else if d == 3 {
        '3'
    } else if d == 4 {
        '4'
    } else if d == 5 {
        '5'
    } else if d == 6 {
        '6'
    } else if d == 7 {
        '7'
    } else if d == 8 {
        '8'
    } else {
        '9'
    }
}

/// The numeric value of a digit character; 0 for anything else.
pub open spec fn char_digit(c: char) -> nat {
    if c == '1' {
        1
    } else if c == '2' {
        2
    } else if c == '3' {
        3
    } else if c == '4' {
        4
    } else if c == '5' {
        5
    } else if c == '6' {
        6
    } else if c == '7' {
        7
    } else if c == '8' {
        8
    } else if c == '9' {
        9
    } else {
        0
    }
}

/// `n` written in decimal, without leading zeros (except for `n == 0`).
pub open spec fn decimal(n: nat) -> Seq<char>
    decreases n,
{
    if n < 10 {
        seq![digit_char(n)]
    } else {
        decimal(n / 10).push(digit_char(n % 10))
    }
}

/// The number a digit string denotes.
pub open spec fn decimal_value(s: Seq<char>) -> nat
    decreases s.len(),
{
    if s.len() == 0 {
        0
    } else {
        decimal_value(s.drop_last()) * 10 + char_digit(s.last())
    }
}

/// Reading back a decimal rendering yields the number it came from, so two
/// distinct counters always render as distinct digit strings.
pub proof fn lemma_decimal_value(n: nat)
    ensures
        decimal_value(decimal(n)) == n,
    decreases n,
{
    assert(char_digit(digit_char(n % 10)) == n % 10);
    if n < 10 {
        assert(decimal(n).drop_last() =~= Seq::<char>::empty());
        assert(decimal(n).last() == digit_char(n));
        assert(char_digit(digit_char(n)) == n);
        assert(decimal_value(decimal(n)) == decimal_value(Seq::<char>::empty()) * 10 + char_digit(
            digit_char(n),
        ));
    } else {
        lemma_decimal_value(n / 10);
        assert(decimal(n).drop_last() =~= decimal(n / 10));
        assert(decimal(n).last() == digit_char(n % 10));
        assert(decimal_value(decimal(n)) == decimal_value(decimal(n / 10)) * 10 + char_digit(
            digit_char(n % 10),
        ));
        assert(n / 10 * 10 + n % 10 == n) by (nonlinear_arith);
    }
}

/// The file stem of a file name: what precedes the last dot, unless that dot
/// leads the name (a dotfile) or there is none, in which case the whole name.
pub open spec fn stem_of(f: Seq<char>) -> Seq<char> {
    let d = last_index_of(f, '.');
    if d <= 0 {
        f
    } else {
        f.subrange(0, d)
    }
}

/// The disambiguated destination for `p` under collision counter `n`: the
/// current extension of `p`'s file name is replaced by the counter's digits.
/// A colliding `report.txt` thus becomes `report.1`, dropping `.txt`.
pub open spec fn with_counter(p: Seq<char>, n: nat) -> Seq<char> {
    p.subrange(0, last_sep(p) + 1) + stem_of(file_name_of(p)) + seq!['.'] + decimal(n)
}

/// Distinct counters give distinct disambiguated destinations.
pub proof fn lemma_with_counter_injective(p: Seq<char>, a: nat, b: nat)
    requires
        with_counter(p, a) == with_counter(p, b),
    ensures
        a == b,
{
    lemma_last_index_of(p, '/');
    let pre = p.subrange(0, last_sep(p) + 1) + stem_of(file_name_of(p)) + seq!['.'];
    assert(with_counter(p, a) =~= pre + decimal(a));
    assert(with_counter(p, b) =~= pre + decimal(b));
    assert(decimal(a) =~= (pre + decimal(a)).subrange(
        pre.len() as int,
        (pre + decimal(a)).len() as int,
    ));
    assert(decimal(b) =~= (pre + decimal(b)).subrange(
        pre.len() as int,
        (pre + decimal(b)).len() as int,
    ));
    assert(decimal(a) == decimal(b));
    lemma_decimal_value(a);
    lemma_decimal_value(b);
}

/// Index of the last `c` in `s`, scanned from the end.
pub fn find_last_index_of(s: &str, c: char) -> (r: Option<usize>)
    ensures
        match r {
            Some(k) => k == last_index_of(s@, c),
            None => last_index_of(s@, c) == -1,
        },
{
    let n = s.unicode_len();
    let mut i = n;
    while i > 0
        invariant
            i <= n,
            n == s@.len(),
            forall|j: int| i <= j < s@.len() ==> s@[j] != c,
        decreases i,
    {
        let ch = s.get_char(i - 1);
        if ch == c {
            proof {
                lemma_last_index_of_unique(s@, c, i - 1);
            }
            return Some(i - 1);
        }
        i = i - 1;
    }
    proof {
        lemma_last_index_of_absent(s@, c);
    }
    None
}

/// Character-wise string equality.
pub fn str_eq(a: &str, b: &str) -> (r: bool)
    ensures
        r == (a@ == b@),
{
    let na = a.unicode_len();
    let nb = b.unicode_len();
    if na != nb {
        return false;
    }
    let mut i: usize = 0;
    while i < na
        invariant
            i <= na,
            na == a@.len(),
            na == b@.len(),
            forall|j: int| 0 <= j < i ==> a@[j] == b@[j],
        decreases na - i,
    {
        if a.get_char(i) != b.get_char(i) {
            return false;
        }
        i = i + 1;
    }
    proof {
        assert(a@ =~= b@);
    }
    true
}

/// The digit `d` as a one-character string.
fn digit_str(d: u64) -> (r: &'static str)
    requires
        d < 10,
    ensures
        r@ == seq![digit_char(d as nat)],
{
    proof {
        reveal_strlit("0");
        reveal_strlit("1");
        reveal_strlit("2");
        reveal_strlit("3");
        reveal_strlit("4");
        reveal_strlit("5");
        reveal_strlit("6");
        reveal_strlit("7");
        reveal_strlit("8");
        reveal_strlit("9");
    }
    let r = if d == 0 {
        "0"
    } else if d == 1 {
        "1"
    } else if d == 2 {
        "2"
    } else if d == 3 {
        "3"
    } else if d == 4 {
        "4"
    } else if d == 5 {
        "5"
    } else if d == 6 {
        "6"
    } else if d == 7 {
        "7"
    } else if d == 8 {
        "8"
    } else {
        "9"
    };
    proof {
        assert(r@ =~= seq![digit_char(d as nat)]);
    }
    r
}

/// `n` rendered in decimal.
pub fn u64_string(n: u64) -> (r: String)
    ensures
        r@ == decimal(n as nat),
    decreases n,
{
    if n < 10 {
        digit_str(n).to_owned()
    } else {
        let mut r = u64_string(n / 10);
        r.append(digit_str(n % 10));
        proof {
            assert(r@ =~= decimal(n as nat));
        }
        r
    }
}

/// The file name of `s`: what follows its last separator.
pub fn file_name(s: &str) -> (r: String)
    ensures
        r@ == file_name_of(s@),
{
    proof {
        lemma_last_index_of(s@, '/');
    }
    let n = s.unicode_len();
    match find_last_index_of(s, '/') {
        Some(i) => s.substring_char(i + 1, n).to_owned(),
        None => {
            proof {
                assert(s@.subrange(0, s@.len() as int) =~= s@);
            }
            s.to_owned()
        },
    }
}

/// The parent of `s`, or `None` when `s` has no separator.
pub fn parent(s: &str) -> (r: Option<String>)
    ensures
        match r {
            Some(p) => last_sep(s@) >= 0 && p@ == parent_of(s@),
            None => last_sep(s@) == -1,
        },
{
    proof {
        lemma_last_index_of(s@, '/');
    }
    match find_last_index_of(s, '/') {
        Some(i) => {
            if i == 0 {
                proof {
                    reveal_strlit("/");
                    assert("/"@ =~= seq!['/']);
                }
                Some("/".to_owned())
            } else {
                Some(s.substring_char(0, i).to_owned())
            }
        },
        None => None,
    }
}

/// `base` extended with the child component `name`.
pub fn join(base: &str, name: &str) -> (r: String)
    ensures
        r@ == join_path(base@, name@),
{
    let n = base.unicode_len();
    let mut r = base.to_owned();
    if n == 0 || base.get_char(n - 1) != '/' {
        proof {
            reveal_strlit("/");
            assert("/"@ =~= seq!['/']);
        }
        r.append("/");
    }
    r.append(name);
    proof {
        assert(r@ =~= join_path(base@, name@));
    }
    r
}

/// Whether `p` equals `base` or lies below it at a component boundary.
pub fn starts_with_path(p: &str, base: &str) -> (r: bool)
    ensures
        r == path_starts_with(p@, base@),
{
    let np = p.unicode_len();
    let nb = base.unicode_len();
    if np < nb {
        return false;
    }
    if np == nb {
        return str_eq(p, base);
    }
    let head = p.substring_char(0, nb);
    if !str_eq(head, base) {
        return false;
    }
    p.get_char(nb) == '/'
}

/// The disambiguated destination for `path` under collision counter `count`:
/// the current extension of the file name is replaced by the counter's digits.
pub fn new_item_name(path: &str, count: u64) -> (r: String)
    ensures
        r@ == with_counter(path@, count as nat),
{
    proof {
        lemma_last_index_of(path@, '/');
    }
    let n = path.unicode_len();
    let (keep, fname): (&str, &str) = match find_last_index_of(path, '/') {
        Some(i) => (path.substring_char(0, i + 1), path.substring_char(i + 1, n)),
        None => {
            proof {
                reveal_strlit("");
                assert(""@ =~= path@.subrange(0, 0));
            }
            ("", path)
        },
    };
    proof {
        assert(fname@ =~= file_name_of(path@));
    }
    proof {
        lemma_last_index_of(fname@, '.');
    }
    let stem: &str = match find_last_index_of(fname, '.') {
        Some(d) => {
            if d > 0 {
                fname.substring_char(0, d)
            } else {
                fname
            }
        },
        None => fname,
    };
    let mut r = keep.to_owned();
    r.append(stem);
    proof {
        reveal_strlit(".");
        assert("."@ =~= seq!['.']);
    }
    r.append(".");
    let digits = u64_string(count);
    r.append(digits.as_str());
    proof {
        assert(r@ =~= with_counter(path@, count as nat));
    }
    r
}

} // verus!
