//! The lister's per-entry presentation, shared with the trash tool's
//! listing: human-readable sizes, permission triplets, modification
//! times, name coloring decisions, path display trimming, and hidden-name
//! filtering.

use crate::fsmodel::FileKind;
use crate::strutil::{
    base_name, base_name_seq, chars_to_string, dec_digits, digit_char, digit_of, is_hidden,
    is_hidden_seq, push_dec, string_chars,
};
use vstd::prelude::*;
use chrono::{Datelike, Local, TimeZone, Timelike};

verus! {

// ---------------------------------------------------------------------------
// Sizes
// ---------------------------------------------------------------------------

pub const KIB: u64 = 1024;

pub const MIB: u64 = 1024 * 1024;

pub const GIB: u64 = 1024 * 1024 * 1024;

pub const TIB: u64 = 1024 * 1024 * 1024 * 1024;

pub const PIB: u64 = 1024 * 1024 * 1024 * 1024 * 1024;

pub const EIB: u64 = 1024 * 1024 * 1024 * 1024 * 1024 * 1024;

/// A byte count scaled by powers of 1024 and truncated to an integer,
/// with no suffix below one kibibyte and one of `K M G T P E` above.
pub open spec fn spec_size(n: nat) -> Seq<char> {
    if n < KIB {
        dec_digits(n)
    } else if n < MIB {
        dec_digits(n / (KIB as nat)).push('K')
    } else if n < GIB {
        dec_digits(n / (MIB as nat)).push('M')
    } else if n < TIB {
        dec_digits(n / (GIB as nat)).push('G')
    } else if n < PIB {
        dec_digits(n / (TIB as nat)).push('T')
    } else if n < EIB {
        dec_digits(n / (PIB as nat)).push('P')
    } else {
        dec_digits(n / (EIB as nat)).push('E')
    }
}

/// The human-readable rendering of a size in bytes.
pub fn size(bytes: u64) -> (r: String)
    ensures
        r@ == spec_size(bytes as nat),
{
    let mut out: Vec<char> = Vec::new();
    if bytes < KIB {
        push_dec(&mut out, bytes);
    } else if bytes < MIB {
        push_dec(&mut out, bytes / KIB);
        out.push('K');
    } else if bytes < GIB {
        push_dec(&mut out, bytes / MIB);
        out.push('M');
    } else if bytes < TIB {
        push_dec(&mut out, bytes / GIB);
        out.push('G');
    } else if bytes < PIB {
        push_dec(&mut out, bytes / TIB);
        out.push('T');
    } else if bytes < EIB {
        push_dec(&mut out, bytes / PIB);
        out.push('P');
    } else {
        push_dec(&mut out, bytes / EIB);
        out.push('E');
    }
    chars_to_string(&out)
}

/// The size rendering, right-aligned to four columns: short renderings
/// get leading spaces, longer ones stand as they are.
pub open spec fn spec_size_styled(n: nat) -> Seq<char> {
    let s = spec_size(n);
    if s.len() == 1 {
        seq![' ', ' ', ' '] + s
    } else if s.len() == 2 {
        seq![' ', ' '] + s
    } else if s.len() == 3 {
        seq![' '] + s
    } else {
        s
    }
}

/// The size rendering, right-aligned to four columns.
pub fn size_styled(bytes: u64) -> (r: String)
    ensures
        r@ == spec_size_styled(bytes as nat),
{
    let plain = size(bytes);
    let chars = string_chars(plain.as_str());
    let mut out: Vec<char> = Vec::new();
    if chars.len() == 1 {
        out.push(' ');
        out.push(' ');
        out.push(' ');
    } else if chars.len() == 2 {
        out.push(' ');
        out.push(' ');
    } else if chars.len() == 3 {
        out.push(' ');
    }
    let mut i: usize = 0;
    let ghost pad = out@;
    while i < chars.len()
        invariant
            i <= chars.len(),
            chars@ == spec_size(bytes as nat),
            out@ == pad + chars@.subrange(0, i as int),
        decreases chars.len() - i,
    {
        out.push(chars[i]);
        i += 1;
        proof {
            assert(out@ =~= pad + chars@.subrange(0, i as int));
        }
    }
    proof {
        assert(chars@.subrange(0, chars@.len() as int) =~= chars@);
        assert(out@ =~= spec_size_styled(bytes as nat));
    }
    chars_to_string(&out)
}

// ---------------------------------------------------------------------------
// Permissions
// ---------------------------------------------------------------------------

/// The `rwx` triplet for one octal digit.
pub open spec fn perm_triple(d: nat) -> Seq<char> {
    if d == 1 {
        seq!['-', '-', 'x']
    } else if d == 2 {
        seq!['-', 'w', '-']
    } else if d == 3 {
        seq!['-', 'w', 'x']
    } else if d == 4 {
        seq!['r', '-', '-']
    } else if d == 5 {
        seq!['r', '-', 'x']
    } else if d == 6 {
        seq!['r', 'w', '-']
    } else if d == 7 {
        seq!['r', 'w', 'x']
    } else {
        seq!['-', '-', '-']
    }
}

/// The `rwx` triplet for one octal digit given as its character, as it
/// appears in an octal rendering of the mode.
pub open spec fn spec_format_permissions(c: char) -> Seq<char> {
    if c == '1' {
        perm_triple(1)
    } else if c == '2' {
        perm_triple(2)
    } else if c == '3' {
        perm_triple(3)
    } else if c == '4' {
        perm_triple(4)
    } else if c == '5' {
        perm_triple(5)
    } else if c == '6' {
        perm_triple(6)
    } else if c == '7' {
        perm_triple(7)
    } else {
        perm_triple(0)
    }
}

/// The `rwx` triplet for one octal digit character.
pub fn format_permissions(c: char) -> (r: String)
    ensures
        r@ == spec_format_permissions(c),
{
    let d: u64 = if c == '1' {
        1
    } else if c == '2' {
        2
    } else if c == '3' {
        3
    } else if c == '4' {
        4
    } else if c == '5' {
        5
    } else if c == '6' {
        6
    } else if c == '7' {
        7
    } else {
        0
    };
    let r = push_triple(d);
    proof {
        assert(r@ == spec_format_permissions(c));
    }
    r
}

fn push_triple(d: u64) -> (r: String)
    ensures
        r@ == perm_triple(d as nat),
{
    let mut out: Vec<char> = Vec::new();
    if d == 1 {
        out.push('-');
        out.push('-');
        out.push('x');
    } else if d == 2 {
        out.push('-');
        out.push('w');
        out.push('-');
    } else if d == 3 {
        out.push('-');
        out.push('w');
        out.push('x');
    } else if d == 4 {
        out.push('r');
        out.push('-');
        out.push('-');
    } else if d == 5 {
        out.push('r');
        out.push('-');
        out.push('x');
    } else if d == 6 {
        out.push('r');
        out.push('w');
        out.push('-');
    } else if d == 7 {
        out.push('r');
        out.push('w');
        out.push('x');
    } else {
        out.push('-');
        out.push('-');
        out.push('-');
    }
    proof {
        assert(out@ =~= perm_triple(d as nat));
    }
    chars_to_string(&out)
}

/// The user, group and other triplets of a mode, from its last three
/// octal digits.
pub open spec fn spec_permissions_styled(m: nat) -> Seq<char> {
    seq!['u', ':', ' '] + perm_triple((m / 64) % 8) + seq![' ', 'g', ':', ' '] + perm_triple(
        (m / 8) % 8,
    ) + seq![' ', 'o', ':', ' '] + perm_triple(m % 8)
}

/// Renders a mode's last three octal digits as `u: rwx g: rwx o: rwx`
/// triplets.
pub fn permissions_styled(mode: u32) -> (r: String)
    ensures
        r@ == spec_permissions_styled(mode as nat),
{
    let m = mode as u64;
    let u = push_triple((m / 64) % 8);
    let g = push_triple((m / 8) % 8);
    let o = push_triple(m % 8);
    let mut out: Vec<char> = Vec::new();
    out.push('u');
    out.push(':');
    out.push(' ');
    push_all(&mut out, &u);
    out.push(' ');
    out.push('g');
    out.push(':');
    out.push(' ');
    push_all(&mut out, &g);
    out.push(' ');
    out.push('o');
    out.push(':');
    out.push(' ');
    push_all(&mut out, &o);
    proof {
        assert(out@ =~= spec_permissions_styled(mode as nat));
    }
    chars_to_string(&out)
}

/// Appends the characters of `s` to `out`.
fn push_all(out: &mut Vec<char>, s: &String)
    ensures
        final(out)@ == old(out)@ + s@,
{
    let chars = string_chars(s.as_str());
    let mut i: usize = 0;
    while i < chars.len()
        invariant
            i <= chars.len(),
            chars@ == s@,
            out@ == old(out)@ + s@.subrange(0, i as int),
        decreases chars.len() - i,
    {
        out.push(chars[i]);
        i += 1;
        proof {
            assert(out@ =~= old(out)@ + s@.subrange(0, i as int));
        }
    }
    proof {
        assert(out@ =~= old(out)@ + s@);
    }
}

/// Whether a mode marks its object executable: any of the three octal
/// permission digits is odd.
pub open spec fn spec_is_executable(m: nat) -> bool {
    ((m / 64) % 8) % 2 == 1 || ((m / 8) % 8) % 2 == 1 || (m % 8) % 2 == 1
}

/// Whether any of the user, group or other digits of `mode` has the
/// execute bit set.
pub fn is_executable(mode: u32) -> (r: bool)
    ensures
        r == spec_is_executable(mode as nat),
{
    let m = mode as u64;
    ((m / 64) % 8) % 2 == 1 || ((m / 8) % 8) % 2 == 1 || (m % 8) % 2 == 1
}

/// The value of a decimal digit character, if it is one.
pub fn parse_char_to_usize(c: char) -> (r: Option<usize>)
    ensures
        r == if '0' <= c <= '9' {
            Some((c as usize - '0' as usize) as usize)
        } else {
            None::<usize>
        },
{
    match c {
        '0' => Some(0),
        '1' => Some(1),
        '2' => Some(2),
        '3' => Some(3),
        '4' => Some(4),
        '5' => Some(5),
        '6' => Some(6),
        '7' => Some(7),
        '8' => Some(8),
        '9' => Some(9),
        _ => None,
    }
}

// ---------------------------------------------------------------------------
// Modification times
// ---------------------------------------------------------------------------

/// A number under 100 rendered as exactly two digits.
pub open spec fn two_digits(n: nat) -> Seq<char> {
    seq![digit_char(n / 10), digit_char(n % 10)]
}

/// A `month/day hour:minute` stamp, every field zero-padded to two
/// digits.
pub open spec fn spec_time_styled(month: nat, day: nat, hour: nat, minute: nat) -> Seq<char> {
    two_digits(month) + seq!['/'] + two_digits(day) + seq![' '] + two_digits(hour) + seq![':']
        + two_digits(minute)
}

fn push_two_digits(out: &mut Vec<char>, n: u32)
    requires
        n < 100,
    ensures
        final(out)@ == old(out)@ + two_digits(n as nat),
{
    let m = n as u64;
    out.push(digit_of(m / 10));
    out.push(digit_of(m % 10));
    proof {
        assert(out@ =~= old(out)@ + two_digits(n as nat));
    }
}

/// Renders calendar fields as `month/day hour:minute`, zero-padded.
pub fn format_timestamp(month: u32, day: u32, hour: u32, minute: u32) -> (r: String)
    requires
        month < 100,
        day < 100,
        hour < 100,
        minute < 100,
    ensures
        r@ == spec_time_styled(month as nat, day as nat, hour as nat, minute as nat),
{
    let mut out: Vec<char> = Vec::new();
    push_two_digits(&mut out, month);
    out.push('/');
    push_two_digits(&mut out, day);
    out.push(' ');
    push_two_digits(&mut out, hour);
    out.push(':');
    push_two_digits(&mut out, minute);
    proof {
        assert(out@ =~= spec_time_styled(month as nat, day as nat, hour as nat, minute as nat));
    }
    chars_to_string(&out)
}

/// Relies on chrono's `TimeZone::timestamp_nanos` for `Local` and its
/// `Datelike`/`Timelike` accessors: whatever the local time zone, the
/// month is 1 to 12, the day 1 to 31, the hour below 24 and the minute
/// below 60.
#[verifier::external_body]
fn local_time_fields(nanos: i64) -> (r: (u32, u32, u32, u32))
    ensures
        1 <= r.0 <= 12,
        1 <= r.1 <= 31,
        r.2 < 24,
        r.3 < 60,
{
    let dt = Local.timestamp_nanos(nanos);
    (dt.month(), dt.day(), dt.hour(), dt.minute())
}

/// The local-time `month/day hour:minute` stamp of a moment given in
/// nanoseconds since the epoch.  The fields depend on the machine's time
/// zone; whatever it is, they are in calendar range and the rendering has
/// this exact shape.
pub fn time(nanos: i64) -> (r: String)
    ensures
        exists|month: nat, day: nat, hour: nat, minute: nat|
            1 <= month <= 12 && 1 <= day <= 31 && hour < 24 && minute < 60 && r@
                == spec_time_styled(month, day, hour, minute),
{
    let (month, day, hour, minute) = local_time_fields(nanos);
    let r = format_timestamp(month, day, hour, minute);
    proof {
        let mo = month as nat;
        let d = day as nat;
        let h = hour as nat;
        let mi = minute as nat;
        assert(1 <= mo <= 12 && 1 <= d <= 31 && h < 24 && mi < 60);
        assert(r@ == spec_time_styled(mo, d, h, mi));
    }
    r
}

// ---------------------------------------------------------------------------
// Colors and lines
// ---------------------------------------------------------------------------

/// The color a listed name is shown in.  Applying the color codes is the
/// terminal layer's business; the decision is made here.
#[derive(Clone, Copy, Debug, PartialEq, Eq, Structural)]
pub enum Color {
    Green,
    Blue,
    Cyan,
    Plain,
}

/// The coloring rule: executable regular files green, directories blue,
/// symlinks cyan, anything else uncolored.
pub fn color_for(kind: FileKind, executable: bool) -> (r: Color)
    ensures
        kind == FileKind::Directory ==> r == Color::Blue,
        kind == FileKind::Symlink ==> r == Color::Cyan,
        kind == FileKind::File && executable ==> r == Color::Green,
        kind == FileKind::File && !executable ==> r == Color::Plain,
{
    match kind {
        FileKind::Directory => Color::Blue,
        FileKind::Symlink => Color::Cyan,
        FileKind::File => if executable {
            Color::Green
        } else {
            Color::Plain
        },
    }
}

/// The word for a file kind.
pub open spec fn kind_word(k: FileKind) -> Seq<char> {
    match k {
        FileKind::File => seq!['f', 'i', 'l', 'e'],
        FileKind::Directory => seq![
            'd', 'i', 'r', 'e', 'c', 't', 'o', 'r', 'y',
        ],
        FileKind::Symlink => seq!['s', 'y', 'm', 'l', 'i', 'n', 'k'],
    }
}

/// One line of the trash listing:
/// `<trash base name> (<original path>) <kind>`.
pub open spec fn spec_trash_line(trash_path: Seq<char>, original: Seq<char>, kind: FileKind) -> Seq<
    char,
> {
    base_name_seq(trash_path) + seq![' ', '('] + original + seq![')', ' '] + kind_word(kind)
}

/// Renders one trash listing line.
pub fn format_line(trash_path: &String, original: &String, kind: FileKind) -> (r: String)
    ensures
        r@ == spec_trash_line(trash_path@, original@, kind),
{
    let base = base_name(trash_path.as_str());
    let mut out: Vec<char> = Vec::new();
    push_all(&mut out, &base);
    out.push(' ');
    out.push('(');
    push_all(&mut out, original);
    out.push(')');
    out.push(' ');
    match kind {
        FileKind::File => {
            out.push('f');
            out.push('i');
            out.push('l');
            out.push('e');
        }
        FileKind::Directory => {
            out.push('d');
            out.push('i');
            out.push('r');
            out.push('e');
            out.push('c');
            out.push('t');
            out.push('o');
            out.push('r');
            out.push('y');
        }
        FileKind::Symlink => {
            out.push('s');
            out.push('y');
            out.push('m');
            out.push('l');
            out.push('i');
            out.push('n');
            out.push('k');
        }
    }
    proof {
        assert(out@ =~= spec_trash_line(trash_path@, original@, kind));
    }
    chars_to_string(&out)
}

// ---------------------------------------------------------------------------
// Hidden-name filtering
// ---------------------------------------------------------------------------

/// Keeping exactly the paths whose base name does not start with `.`.
pub open spec fn keep_visible() -> spec_fn(String) -> bool {
    |f: String| !is_hidden_seq(f@)
}

/// The visible paths of a listing, in order.
pub open spec fn spec_filter_visible(s: Seq<String>) -> Seq<String> {
    s.filter(keep_visible())
}

/// One step of a front-to-back filter over path strings.
proof fn lemma_visible_filter_step(s: Seq<String>, i: int)
    requires
        0 <= i < s.len(),
    ensures
        keep_visible()(s[i]) ==> s.subrange(0, i + 1).filter(keep_visible()) == s.subrange(
            0,
            i,
        ).filter(keep_visible()).push(s[i]),
        !keep_visible()(s[i]) ==> s.subrange(0, i + 1).filter(keep_visible()) == s.subrange(
            0,
            i,
        ).filter(keep_visible()),
{
    reveal(Seq::filter);
    let p = s.subrange(0, i + 1);
    assert(p.drop_last() =~= s.subrange(0, i));
    assert(p.last() == s[i]);
}

/// Drops every path whose base name starts with `.`, keeping the order.
#[verifier::loop_isolation(false)]
pub fn filter_visible(files: &Vec<String>) -> (r: Vec<String>)
    ensures
        r@ == spec_filter_visible(files@),
{
    let n = files.len();
    let mut out: Vec<String> = Vec::new();
    let mut i: usize = 0;
    proof {
        reveal(Seq::filter);
        assert(files@.subrange(0, 0) =~= Seq::<String>::empty());
        assert(out@ =~= files@.subrange(0, 0).filter(keep_visible()));
    }
    while i < n
        invariant
            i <= n,
            n == files.len(),
            out@ == files@.subrange(0, i as int).filter(keep_visible()),
        decreases n - i,
    {
        let keep = !is_hidden(files[i].as_str());
        proof {
            lemma_visible_filter_step(files@, i as int);
            assert(keep == keep_visible()(files@[i as int]));
        }
        if keep {
            out.push(files[i].clone());
        }
        i += 1;
    }
    proof {
        assert(files@.subrange(0, n as int) =~= files@);
    }
    out
}

// ---------------------------------------------------------------------------
// Path display trimming
// ---------------------------------------------------------------------------

/// Whether `pat` occurs in `s` at position `i`.
pub open spec fn matches_at(s: Seq<char>, i: int, pat: Seq<char>) -> bool {
    0 <= i && i + pat.len() <= s.len() && s.subrange(i, i + pat.len() as int) == pat
}

/// The first position at or after `i` where `pat` occurs in `s`.
pub open spec fn first_match_from(s: Seq<char>, pat: Seq<char>, i: int) -> Option<int>
    decreases s.len() - i,
{
    if i < 0 || i + pat.len() > s.len() {
        None
    } else if pat.len() == 0 {
        Some(i)
    } else if matches_at(s, i, pat) {
        Some(i)
    } else {
        first_match_from(s, pat, i + 1)
    }
}

/// `s` with the first occurrence of `pat` removed, if there is one.
pub open spec fn remove_first_seq(s: Seq<char>, pat: Seq<char>) -> Seq<char> {
    match first_match_from(s, pat, 0) {
        None => s,
        Some(i) => s.subrange(0, i) + s.subrange(i + pat.len() as int, s.len() as int),
    }
}

/// A path trimmed for display: the first occurrence of the listed
/// directory `q` removed from `p`, then the first remaining `/`.
pub open spec fn spec_format_path(p: Seq<char>, q: Seq<char>) -> Seq<char> {
    remove_first_seq(remove_first_seq(p, q), seq!['/'])
}

fn match_at(v: &Vec<char>, i: usize, pat: &Vec<char>) -> (r: bool)
    ensures
        r == matches_at(v@, i as int, pat@),
{
    if i > v.len() || v.len() - i < pat.len() {
        return false;
    }
    let mut k: usize = 0;
    while k < pat.len()
        invariant
            k <= pat.len(),
            i + pat.len() <= v.len(),
            forall|t: int| 0 <= t < k ==> v@[i + t] == pat@[t],
        decreases pat.len() - k,
    {
        if v[i + k] != pat[k] {
            proof {
                assert(v@.subrange(i as int, i as int + pat@.len() as int)[k as int]
                    != pat@[k as int]);
            }
            return false;
        }
        k += 1;
    }
    proof {
        assert(v@.subrange(i as int, i as int + pat@.len() as int) =~= pat@);
    }
    true
}

#[verifier::loop_isolation(false)]
fn find_first(v: &Vec<char>, pat: &Vec<char>) -> (r: Option<usize>)
    ensures
        r is None <==> first_match_from(v@, pat@, 0) is None,
        (r matches Some(i) ==> first_match_from(v@, pat@, 0) == Some(i as int) && i + pat.len()
            <= v.len()),
{
    if pat.len() > v.len() {
        return None;
    }
    if pat.len() == 0 {
        proof {
            assert(first_match_from(v@, pat@, 0) == Some(0int));
        }
        return Some(0);
    }
    let bound = v.len() - pat.len();
    let mut i: usize = 0;
    while i <= bound
        invariant
            bound == v.len() - pat.len(),
            pat.len() >= 1,
            i <= bound + 1,
            first_match_from(v@, pat@, 0) == first_match_from(v@, pat@, i as int),
        decreases bound + 1 - i,
    {
        if match_at(v, i, pat) {
            return Some(i);
        }
        i += 1;
    }
    None
}

fn remove_first(v: &Vec<char>, pat: &Vec<char>) -> (r: Vec<char>)
    ensures
        r@ == remove_first_seq(v@, pat@),
{
    match find_first(v, pat) {
        None => {
            let mut out: Vec<char> = Vec::new();
            let mut t: usize = 0;
            while t < v.len()
                invariant
                    t <= v.len(),
                    out@ == v@.subrange(0, t as int),
                decreases v.len() - t,
            {
                out.push(v[t]);
                t += 1;
                proof {
                    assert(out@ =~= v@.subrange(0, t as int));
                }
            }
            proof {
                assert(out@ =~= v@);
            }
            out
        }
        Some(i) => {
            let mut out: Vec<char> = Vec::new();
            let mut t: usize = 0;
            while t < i
                invariant
                    t <= i <= v.len(),
                    out@ == v@.subrange(0, t as int),
                decreases i - t,
            {
                out.push(v[t]);
                t += 1;
                proof {
                    assert(out@ =~= v@.subrange(0, t as int));
                }
            }
            let mut u: usize = i + pat.len();
            while u < v.len()
                invariant
                    i + pat.len() <= u <= v.len(),
                    out@ == v@.subrange(0, i as int) + v@.subrange(
                        i as int + pat@.len() as int,
                        u as int,
                    ),
                decreases v.len() - u,
            {
                out.push(v[u]);
                u += 1;
                proof {
                    assert(out@ =~= v@.subrange(0, i as int) + v@.subrange(
                        i as int + pat@.len() as int,
                        u as int,
                    ));
                }
            }
            proof {
                assert(out@ =~= remove_first_seq(v@, pat@));
            }
            out
        }
    }
}

/// Trims `p` for display under the listed directory `q`: the first
/// occurrence of `q` is removed, then the first remaining `/`.
pub fn format_path(p: String, q: String) -> (r: String)
    ensures
        r@ == spec_format_path(p@, q@),
{
    let pv = string_chars(p.as_str());
    let qv = string_chars(q.as_str());
    let step = remove_first(&pv, &qv);
    let mut slash: Vec<char> = Vec::new();
    slash.push('/');
    proof {
        assert(slash@ =~= seq!['/']);
    }
    let out = remove_first(&step, &slash);
    chars_to_string(&out)
}

} // verus!
