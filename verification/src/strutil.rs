//! String helpers shared by the registry, the trash operations and the
//! lister: character/`String` conversion, decimal rendering, and the
//! path-name logic (base name, joining, hidden-name classification).

use vstd::prelude::*;

verus! {

// ---------------------------------------------------------------------------
// Characters of a string, string of characters
// ---------------------------------------------------------------------------

/// The characters of `s`, as a vector.
pub fn string_chars(s: &str) -> (v: Vec<char>)
    ensures
        v@ == s@,
{
    let n = s.unicode_len();
    let mut v: Vec<char> = Vec::new();
    let mut i: usize = 0;
    while i < n
        invariant
            n == s@.len(),
            i <= n,
            v@ == s@.subrange(0, i as int),
        decreases n - i,
    {
        let c = s.get_char(i);
        v.push(c);
        i += 1;
        proof {
            assert(v@ =~= s@.subrange(0, i as int));
        }
    }
    proof {
        assert(v@ =~= s@);
    }
    v
}

/// Relies on `String`'s `FromIterator<char>` implementation: collecting an
/// iterator of characters yields the string of exactly those characters,
/// in order.
#[verifier::external_body]
pub fn chars_to_string(v: &Vec<char>) -> (s: String)
    ensures
        s@ == v@,
{
    v.iter().collect()
}

// ---------------------------------------------------------------------------
// Decimal rendering
// ---------------------------------------------------------------------------

/// The character for one decimal digit.
pub open spec fn digit_char(d: nat) -> char {
    if d == 0 {
        '0'
    } else if d == 1 {
        '1'
    } else if d == 2 {
        '2'
    } else if d == 3 {
        '3'
    } else if d == 4 {
        '4'
    } else if d == 5 {
        '5'
    } else if d == 6 {
        '6'
    } else if d == 7 {
        '7'
    } else if d == 8 {
        '8'
    } else {
        '9'
    }
}

/// The decimal rendering of `n`, most significant digit first, with no
/// leading zeros (except for `n == 0`, which renders as `"0"`).
pub open spec fn dec_digits(n: nat) -> Seq<char>
    decreases n,
{
    if n < 10 {
        seq![digit_char(n)]
    } else {
        dec_digits(n / 10).push(digit_char(n % 10))
    }
}

pub fn digit_of(d: u64) -> (c: char)
    requires
        d < 10,
    ensures
        c == digit_char(d as nat),
{
    match d {
        0 => '0',
        1 => '1',
        2 => '2',
        3 => '3',
        4 => '4',
        5 => '5',
        6 => '6',
        7 => '7',
        8 => '8',
        _ => '9',
    }
}

/// Appends the decimal rendering of `n` to `out`.
pub fn push_dec(out: &mut Vec<char>, n: u64)
    ensures
        final(out)@ == old(out)@ + dec_digits(n as nat),
    decreases n,
{
    if n < 10 {
        out.push(digit_of(n));
        proof {
            assert(out@ =~= old(out)@ + dec_digits(n as nat));
        }
    } else {
        push_dec(out, n / 10);
        out.push(digit_of(n % 10));
        proof {
            assert(out@ =~= old(out)@ + dec_digits(n as nat));
        }
    }
}

/// The decimal rendering of `n` as a `String`.
pub fn u64_to_dec(n: u64) -> (s: String)
    ensures
        s@ == dec_digits(n as nat),
{
    let mut out: Vec<char> = Vec::new();
    push_dec(&mut out, n);
    chars_to_string(&out)
}

// ---------------------------------------------------------------------------
// Base names and joining
// ---------------------------------------------------------------------------

/// The position of the last `/` in `s`, if any.
pub open spec fn last_slash(s: Seq<char>) -> Option<int>
    decreases s.len(),
{
    if s.len() == 0 {
        None
    } else if s[s.len() - 1] == '/' {
        Some(s.len() - 1)
    } else {
        last_slash(s.drop_last())
    }
}

/// The base name of a path: everything after the last `/`, or the whole
/// string when it has no `/`.  Empty when the path ends in `/`.
pub open spec fn base_name_seq(s: Seq<char>) -> Seq<char> {
    match last_slash(s) {
        None => s,
        Some(i) => s.subrange(i + 1, s.len() as int),
    }
}

/// When no `/` occurs at or after position `k`, the last slash of `s` is
/// the last slash of its prefix of length `k`.
proof fn lemma_last_slash_prefix(s: Seq<char>, k: int)
    requires
        0 <= k <= s.len(),
        forall|j: int| k <= j < s.len() ==> s[j] != '/',
    ensures
        last_slash(s) == last_slash(s.subrange(0, k)),
    decreases s.len() - k,
{
    if k == s.len() {
        assert(s.subrange(0, k) =~= s);
    } else {
        assert(s[s.len() - 1] != '/');
        assert(s.drop_last() =~= s.subrange(0, s.len() - 1));
        lemma_last_slash_prefix(s.subrange(0, s.len() - 1), k);
        assert(s.subrange(0, s.len() - 1).subrange(0, k) =~= s.subrange(0, k));
    }
}

/// The base name of `path` (the component after the last `/`).
pub fn base_name(path: &str) -> (r: String)
    ensures
        r@ == base_name_seq(path@),
{
    let v = string_chars(path);
    let n = v.len();
    // `cut` is the position just after the last `/` seen so far (0 if none).
    let mut cut: usize = 0;
    let mut j: usize = 0;
    while j < n
        invariant
            cut <= j <= n,
            n == v.len(),
            v@ == path@,
            cut > 0 ==> v@[cut - 1] == '/',
            forall|t: int| cut <= t < j ==> v@[t] != '/',
        decreases n - j,
    {
        if v[j] == '/' {
            cut = j + 1;
        }
        j += 1;
    }
    proof {
        lemma_last_slash_prefix(path@, cut as int);
        if cut == 0 {
            assert(path@.subrange(0, 0) =~= Seq::<char>::empty());
            assert(base_name_seq(path@) == path@);
        } else {
            let p = path@.subrange(0, cut as int);
            assert(p[p.len() - 1] == '/');
            assert(last_slash(p) == Some(cut - 1));
            assert(base_name_seq(path@) =~= path@.subrange(cut as int, n as int));
        }
    }
    let mut out: Vec<char> = Vec::new();
    let mut t: usize = cut;
    while t < n
        invariant
            cut <= t <= n,
            n == v.len(),
            v@ == path@,
            out@ == path@.subrange(cut as int, t as int),
        decreases n - t,
    {
        out.push(v[t]);
        t += 1;
        proof {
            assert(out@ =~= path@.subrange(cut as int, t as int));
        }
    }
    proof {
        if cut == 0 {
            assert(out@ =~= path@);
        }
    }
    chars_to_string(&out)
}

/// `dir` and `name` joined with a single `/`.
pub open spec fn join_seq(dir: Seq<char>, name: Seq<char>) -> Seq<char> {
    dir + seq!['/'] + name
}

/// Joins a directory and a name with `/`.
pub fn join_path(dir: &str, name: &str) -> (r: String)
    ensures
        r@ == join_seq(dir@, name@),
{
    let mut v = string_chars(dir);
    v.push('/');
    let rest = string_chars(name);
    let mut k: usize = 0;
    while k < rest.len()
        invariant
            k <= rest.len(),
            rest@ == name@,
            v@ == dir@ + seq!['/'] + name@.subrange(0, k as int),
        decreases rest.len() - k,
    {
        v.push(rest[k]);
        k += 1;
        proof {
            assert(v@ =~= dir@ + seq!['/'] + name@.subrange(0, k as int));
        }
    }
    proof {
        assert(v@ =~= join_seq(dir@, name@));
    }
    chars_to_string(&v)
}

/// Whether a path is hidden: its base name starts with `.`.
pub open spec fn is_hidden_seq(s: Seq<char>) -> bool {
    base_name_seq(s).len() > 0 && base_name_seq(s)[0] == '.'
}

/// Whether `path`'s base name starts with `.`.
pub fn is_hidden(path: &str) -> (r: bool)
    ensures
        r == is_hidden_seq(path@),
{
    let b = base_name(path);
    let bs = b.as_str();
    if bs.unicode_len() == 0 {
        false
    } else {
        bs.get_char(0) == '.'
    }
}

} // verus!
