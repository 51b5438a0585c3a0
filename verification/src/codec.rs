//! The registry's persisted form: a JSON document with one array of
//! entry objects, pretty-printed by the writer.  The parser accepts the
//! document's JSON shape rather than one fixed text: whitespace is free,
//! members may come in any order, and unknown members are skipped, so
//! documents written by other versions of the tool still load.  Both
//! directions are verified, and loading a persisted document is proved
//! to give back the registry unchanged.
//!
//! Two layouts share the machinery: the main registry keyed
//! `files`/`path`/`path_trash`, and the alternate one keyed
//! `files_in_trash`/`path`/`trash`.

use crate::registry::{file_views_of, views_of, EntryV, File, FileInfo, FileList, FilesInTrash};
use crate::strutil::{chars_to_string, string_chars};
use crate::Error;
use vstd::prelude::*;

verus! {

// ---------------------------------------------------------------------------
// Keys and escaping
// ---------------------------------------------------------------------------

/// The member key naming an entry's original path.
pub open spec fn path_key() -> Seq<char> {
    seq!['p', 'a', 't', 'h']
}

/// The main layout's key for an entry's trash-side path.
pub open spec fn path_trash_key() -> Seq<char> {
    seq!['p', 'a', 't', 'h', '_', 't', 'r', 'a', 's', 'h']
}

/// The alternate layout's key for an entry's trash-side path.
pub open spec fn trash_key() -> Seq<char> {
    seq!['t', 'r', 'a', 's', 'h']
}

/// The main layout's key for the entry array.
pub open spec fn files_key() -> Seq<char> {
    seq!['f', 'i', 'l', 'e', 's']
}

/// The alternate layout's key for the entry array.
pub open spec fn files_in_trash_key() -> Seq<char> {
    seq!['f', 'i', 'l', 'e', 's', '_', 'i', 'n', '_', 't', 'r', 'a', 's', 'h']
}

/// The JSON escape of one character: quotes and backslashes get a
/// backslash, everything else stands for itself.
pub open spec fn esc_char(c: char) -> Seq<char> {
    if c == '"' || c == '\\' {
        seq!['\\', c]
    } else {
        seq![c]
    }
}

/// The JSON escape of a string body.
pub open spec fn esc_seq(s: Seq<char>) -> Seq<char>
    decreases s.len(),
{
    if s.len() == 0 {
        Seq::empty()
    } else {
        esc_char(s[0]) + esc_seq(s.drop_first())
    }
}

/// No character of `s` needs escaping.
pub open spec fn escape_free(s: Seq<char>) -> bool {
    forall|k: int| 0 <= k < s.len() ==> s[k] != '"' && s[k] != '\\'
}

// ---------------------------------------------------------------------------
// The written form
// ---------------------------------------------------------------------------

/// The document's opening: the object brace and the list key up to its
/// opening bracket.
pub open spec fn hdr(lkey: Seq<char>) -> Seq<char> {
    seq!['{', '\n', ' ', ' ', '"'] + lkey + seq!['"', ':', ' ', '[']
}

/// The opening of one entry object, up to the opening quote of the
/// `path` value.
pub open spec fn blk_open() -> Seq<char> {
    seq![
        '\n', ' ', ' ', ' ', ' ', '{', '\n', ' ', ' ', ' ', ' ', ' ', ' ', '"', 'p', 'a', 't',
        'h', '"', ':', ' ', '"',
    ]
}

/// The middle of one entry object: from after the `path` value to the
/// opening quote of the trash-side value.
pub open spec fn blk_mid(tkey: Seq<char>) -> Seq<char> {
    seq![',', '\n', ' ', ' ', ' ', ' ', ' ', ' ', '"'] + tkey + seq!['"', ':', ' ', '"']
}

/// The close of one entry object, after the trash-side value.
pub open spec fn blk_end() -> Seq<char> {
    seq!['\n', ' ', ' ', ' ', ' ', '}']
}

/// The document's close: the array bracket and the object brace.
pub open spec fn ftr() -> Seq<char> {
    seq!['\n', ' ', ' ', ']', '\n', '}']
}

/// One rendered entry.  The closing quote of each string value belongs
/// to the string grammar, not to these blocks.
pub open spec fn json_entry(e: EntryV, tkey: Seq<char>) -> Seq<char> {
    blk_open() + esc_seq(e.path) + seq!['"'] + blk_mid(tkey) + esc_seq(e.trash) + seq!['"']
        + blk_end()
}

/// The rendered entry list; `first` says whether a separating comma is
/// owed before the next entry.
pub open spec fn json_entries(m: Seq<EntryV>, tkey: Seq<char>, first: bool) -> Seq<char>
    decreases m.len(),
{
    if m.len() == 0 {
        Seq::empty()
    } else {
        (if first {
            Seq::<char>::empty()
        } else {
            seq![',']
        }) + json_entry(m[0], tkey) + json_entries(m.drop_first(), tkey, false)
    }
}

/// The whole rendered document.
pub open spec fn json_doc(m: Seq<EntryV>, lkey: Seq<char>, tkey: Seq<char>) -> Seq<char> {
    hdr(lkey) + json_entries(m, tkey, true) + ftr()
}

// ---------------------------------------------------------------------------
// The writer
// ---------------------------------------------------------------------------

/// Splitting a string splits its escape.
proof fn lemma_esc_append(a: Seq<char>, b: Seq<char>)
    ensures
        esc_seq(a + b) == esc_seq(a) + esc_seq(b),
    decreases a.len(),
{
    if a.len() == 0 {
        assert(a + b =~= b);
        assert(esc_seq(a) + esc_seq(b) =~= esc_seq(b));
    } else {
        assert((a + b).drop_first() =~= a.drop_first() + b);
        lemma_esc_append(a.drop_first(), b);
        assert(esc_seq(a + b) =~= esc_seq(a) + esc_seq(b));
    }
}

fn push_escaped(out: &mut Vec<char>, s: &String)
    ensures
        final(out)@ == old(out)@ + esc_seq(s@),
{
    let v = string_chars(s.as_str());
    let n = v.len();
    let mut i: usize = 0;
    proof {
        assert(s@.subrange(0, 0) =~= Seq::<char>::empty());
        assert(out@ =~= old(out)@ + esc_seq(s@.subrange(0, 0)));
    }
    while i < n
        invariant
            i <= n,
            n == v.len(),
            v@ == s@,
            out@ == old(out)@ + esc_seq(s@.subrange(0, i as int)),
        decreases n - i,
    {
        let c = v[i];
        if c == '"' || c == '\\' {
            out.push('\\');
            out.push(c);
        } else {
            out.push(c);
        }
        proof {
            let pre = s@.subrange(0, i as int);
            assert(s@.subrange(0, i + 1) =~= pre + seq![s@[i as int]]);
            lemma_esc_append(pre, seq![s@[i as int]]);
            let one = seq![s@[i as int]];
            assert(one.drop_first() =~= Seq::<char>::empty());
            assert(esc_seq(one) == esc_char(s@[i as int]) + esc_seq(Seq::<char>::empty()));
            assert(esc_seq(one) =~= esc_char(s@[i as int]));
            assert(out@ =~= old(out)@ + esc_seq(s@.subrange(0, i + 1)));
        }
        i += 1;
    }
    proof {
        assert(s@.subrange(0, n as int) =~= s@);
    }
}

/// Appends the characters of `cs` to `out`.
fn push_chars(out: &mut Vec<char>, cs: &Vec<char>)
    ensures
        final(out)@ == old(out)@ + cs@,
{
    let mut i: usize = 0;
    while i < cs.len()
        invariant
            i <= cs.len(),
            out@ == old(out)@ + cs@.subrange(0, i as int),
        decreases cs.len() - i,
    {
        out.push(cs[i]);
        i += 1;
        proof {
            assert(out@ =~= old(out)@ + cs@.subrange(0, i as int));
        }
    }
    proof {
        assert(cs@.subrange(0, cs@.len() as int) =~= cs@);
    }
}

fn push_hdr(out: &mut Vec<char>, lkey: &Vec<char>)
    ensures
        final(out)@ == old(out)@ + hdr(lkey@),
{
    out.push('{');
    out.push('\n');
    out.push(' ');
    out.push(' ');
    out.push('"');
    push_chars(out, lkey);
    out.push('"');
    out.push(':');
    out.push(' ');
    out.push('[');
    proof {
        assert(out@ =~= old(out)@ + hdr(lkey@));
    }
}

fn push_blk_open(out: &mut Vec<char>)
    ensures
        final(out)@ == old(out)@ + blk_open(),
{
    out.push('\n');
    out.push(' ');
    out.push(' ');
    out.push(' ');
    out.push(' ');
    out.push('{');
    out.push('\n');
    out.push(' ');
    out.push(' ');
    out.push(' ');
    out.push(' ');
    out.push(' ');
    out.push(' ');
    out.push('"');
    out.push('p');
    out.push('a');
    out.push('t');
    out.push('h');
    out.push('"');
    out.push(':');
    out.push(' ');
    out.push('"');
    proof {
        assert(out@ =~= old(out)@ + blk_open());
    }
}

fn push_blk_mid(out: &mut Vec<char>, tkey: &Vec<char>)
    ensures
        final(out)@ == old(out)@ + blk_mid(tkey@),
{
    out.push(',');
    out.push('\n');
    out.push(' ');
    out.push(' ');
    out.push(' ');
    out.push(' ');
    out.push(' ');
    out.push(' ');
    out.push('"');
    push_chars(out, tkey);
    out.push('"');
    out.push(':');
    out.push(' ');
    out.push('"');
    proof {
        assert(out@ =~= old(out)@ + blk_mid(tkey@));
    }
}

fn push_blk_end(out: &mut Vec<char>)
    ensures
        final(out)@ == old(out)@ + blk_end(),
{
    out.push('\n');
    out.push(' ');
    out.push(' ');
    out.push(' ');
    out.push(' ');
    out.push('}');
    proof {
        assert(out@ =~= old(out)@ + blk_end());
    }
}

fn push_ftr(out: &mut Vec<char>)
    ensures
        final(out)@ == old(out)@ + ftr(),
{
    out.push('\n');
    out.push(' ');
    out.push(' ');
    out.push(']');
    out.push('\n');
    out.push('}');
    proof {
        assert(out@ =~= old(out)@ + ftr());
    }
}

fn push_entry(out: &mut Vec<char>, e: &FileInfo, tkey: &Vec<char>)
    ensures
        final(out)@ == old(out)@ + json_entry(e@, tkey@),
{
    push_blk_open(out);
    push_escaped(out, e.path());
    out.push('"');
    push_blk_mid(out, tkey);
    push_escaped(out, e.path_trash());
    out.push('"');
    push_blk_end(out);
    proof {
        assert(out@ =~= old(out)@ + json_entry(e@, tkey@));
    }
}

fn push_entries(out: &mut Vec<char>, files: &Vec<FileInfo>, tkey: &Vec<char>, start: usize, first: bool)
    requires
        start <= files.len(),
    ensures
        final(out)@ == old(out)@ + json_entries(
            views_of(files@).subrange(start as int, files@.len() as int),
            tkey@,
            first,
        ),
    decreases files.len() - start,
{
    let ghost m = views_of(files@).subrange(start as int, files@.len() as int);
    if start == files.len() {
        proof {
            assert(m.len() == 0);
            assert(out@ =~= old(out)@ + json_entries(m, tkey@, first));
        }
        return ;
    }
    if !first {
        out.push(',');
    }
    push_entry(out, &files[start], tkey);
    push_entries(out, files, tkey, start + 1, false);
    proof {
        let rest = views_of(files@).subrange(start + 1 as int, files@.len() as int);
        assert(m.drop_first() =~= rest);
        assert(m[0] == files@[start as int]@);
        assert(out@ =~= old(out)@ + json_entries(m, tkey@, first));
    }
}

fn path_key_chars() -> (r: Vec<char>)
    ensures
        r@ == path_key(),
{
    let mut v: Vec<char> = Vec::new();
    v.push('p');
    v.push('a');
    v.push('t');
    v.push('h');
    proof {
        assert(v@ =~= path_key());
    }
    v
}

fn path_trash_key_chars() -> (r: Vec<char>)
    ensures
        r@ == path_trash_key(),
{
    let mut v = path_key_chars();
    v.push('_');
    v.push('t');
    v.push('r');
    v.push('a');
    v.push('s');
    v.push('h');
    proof {
        assert(v@ =~= path_trash_key());
    }
    v
}

fn trash_key_chars() -> (r: Vec<char>)
    ensures
        r@ == trash_key(),
{
    let mut v: Vec<char> = Vec::new();
    v.push('t');
    v.push('r');
    v.push('a');
    v.push('s');
    v.push('h');
    proof {
        assert(v@ =~= trash_key());
    }
    v
}

fn files_key_chars() -> (r: Vec<char>)
    ensures
        r@ == files_key(),
{
    let mut v: Vec<char> = Vec::new();
    v.push('f');
    v.push('i');
    v.push('l');
    v.push('e');
    v.push('s');
    proof {
        assert(v@ =~= files_key());
    }
    v
}

fn files_in_trash_key_chars() -> (r: Vec<char>)
    ensures
        r@ == files_in_trash_key(),
{
    let mut v = files_key_chars();
    v.push('_');
    v.push('i');
    v.push('n');
    v.push('_');
    v.push('t');
    v.push('r');
    v.push('a');
    v.push('s');
    v.push('h');
    proof {
        assert(v@ =~= files_in_trash_key());
    }
    v
}

// ---------------------------------------------------------------------------
// The parser: specification
// ---------------------------------------------------------------------------

/// JSON whitespace.
pub open spec fn is_ws(c: char) -> bool {
    c == ' ' || c == '\n' || c == '\t' || c == '\r'
}

/// The first position at or after `i` that is not whitespace.
pub open spec fn ws(v: Seq<char>, i: int) -> int
    decreases v.len() - i,
{
    if 0 <= i < v.len() && is_ws(v[i]) {
        ws(v, i + 1)
    } else {
        i
    }
}

/// A character that ends a bare scalar token.
pub open spec fn scalar_break(c: char) -> bool {
    is_ws(c) || c == ',' || c == '}' || c == ']' || c == '"' || c == '{' || c == '[' || c == ':'
}

/// The end of a bare scalar token starting at `i`.
pub open spec fn scan_scalar(v: Seq<char>, i: int) -> int
    decreases v.len() - i,
{
    if 0 <= i < v.len() && !scalar_break(v[i]) {
        scan_scalar(v, i + 1)
    } else {
        i
    }
}

/// One fixed character, after any whitespace.
pub open spec fn sp_tok(v: Seq<char>, i: int, c: char) -> Option<int> {
    let j = ws(v, i);
    if 0 <= j && j < v.len() && v[j] == c {
        Some(j + 1)
    } else {
        None
    }
}

/// A string body starting at `i`, up to and including its closing quote:
/// a backslash makes the next character literal; a bare quote ends the
/// string.
pub open spec fn sp_string(v: Seq<char>, i: int) -> Option<(Seq<char>, int)>
    decreases v.len() - i,
{
    if i < 0 || i >= v.len() {
        None
    } else if v[i] == '"' {
        Some((Seq::empty(), i + 1))
    } else if v[i] == '\\' {
        if i + 1 < v.len() {
            match sp_string(v, i + 2) {
                None => None,
                Some((s, j)) => Some((seq![v[i + 1]] + s, j)),
            }
        } else {
            None
        }
    } else {
        match sp_string(v, i + 1) {
            None => None,
            Some((s, j)) => Some((seq![v[i]] + s, j)),
        }
    }
}

/// A quoted string, after any whitespace.
pub open spec fn sp_jstring(v: Seq<char>, i: int) -> Option<(Seq<char>, int)> {
    match sp_tok(v, i, '"') {
        None => None,
        Some(j) => sp_string(v, j),
    }
}

/// Skips one value of any shape: a string, an object, an array, or a
/// bare scalar token (a number, `true`, `false`, `null` — the spelling
/// is not checked).
pub open spec fn sp_value(v: Seq<char>, i: int, fuel: nat) -> Option<int>
    decreases fuel,
{
    if fuel == 0 {
        None
    } else {
        let j = ws(v, i);
        if j < 0 || j >= v.len() {
            None
        } else if v[j] == '"' {
            match sp_string(v, j + 1) {
                None => None,
                Some((s, k)) => Some(k),
            }
        } else if v[j] == '{' {
            sp_obj_tail(v, j + 1, (fuel - 1) as nat)
        } else if v[j] == '[' {
            sp_arr_tail(v, j + 1, (fuel - 1) as nat)
        } else {
            let k = scan_scalar(v, j);
            if k == j {
                None
            } else {
                Some(k)
            }
        }
    }
}

/// Skips the members of an object whose `{` is already consumed.
pub open spec fn sp_obj_tail(v: Seq<char>, i: int, fuel: nat) -> Option<int>
    decreases fuel,
{
    if fuel == 0 {
        None
    } else {
        let j = ws(v, i);
        if 0 <= j && j < v.len() && v[j] == '}' {
            Some(j + 1)
        } else {
            match sp_jstring(v, i) {
                None => None,
                Some((key, k)) => match sp_tok(v, k, ':') {
                    None => None,
                    Some(k2) => match sp_value(v, k2, (fuel - 1) as nat) {
                        None => None,
                        Some(k3) => {
                            let j2 = ws(v, k3);
                            if 0 <= j2 && j2 < v.len() && v[j2] == ',' {
                                sp_obj_tail(v, j2 + 1, (fuel - 1) as nat)
                            } else if 0 <= j2 && j2 < v.len() && v[j2] == '}' {
                                Some(j2 + 1)
                            } else {
                                None
                            }
                        },
                    },
                },
            }
        }
    }
}

/// Skips the elements of an array whose `[` is already consumed.
pub open spec fn sp_arr_tail(v: Seq<char>, i: int, fuel: nat) -> Option<int>
    decreases fuel,
{
    if fuel == 0 {
        None
    } else {
        let j = ws(v, i);
        if 0 <= j && j < v.len() && v[j] == ']' {
            Some(j + 1)
        } else {
            match sp_value(v, i, (fuel - 1) as nat) {
                None => None,
                Some(k) => {
                    let j2 = ws(v, k);
                    if 0 <= j2 && j2 < v.len() && v[j2] == ',' {
                        sp_arr_tail(v, j2 + 1, (fuel - 1) as nat)
                    } else if 0 <= j2 && j2 < v.len() && v[j2] == ']' {
                        Some(j2 + 1)
                    } else {
                        None
                    }
                },
            }
        }
    }
}

/// The members of one entry object whose `{` is already consumed: the
/// `path` member and the trash-side member are read (a later duplicate
/// overwrites an earlier one), unknown members are skipped; both must be
/// present when the object closes.
pub open spec fn sp_entry_members(
    v: Seq<char>,
    i: int,
    p: Option<Seq<char>>,
    t: Option<Seq<char>>,
    tkey: Seq<char>,
    fuel: nat,
) -> Option<(EntryV, int)>
    decreases fuel,
{
    if fuel == 0 {
        None
    } else {
        let j = ws(v, i);
        if 0 <= j && j < v.len() && v[j] == '}' {
            match (p, t) {
                (Some(pp), Some(tt)) => Some((EntryV { path: pp, trash: tt }, j + 1)),
                _ => None,
            }
        } else {
            match sp_jstring(v, i) {
                None => None,
                Some((key, k)) => match sp_tok(v, k, ':') {
                    None => None,
                    Some(k2) => {
                        let step: Option<(int, Option<Seq<char>>, Option<Seq<char>>)> = if key
                            == path_key() {
                            match sp_jstring(v, k2) {
                                None => None,
                                Some((s, k3)) => Some((k3, Some(s), t)),
                            }
                        } else if key == tkey {
                            match sp_jstring(v, k2) {
                                None => None,
                                Some((s, k3)) => Some((k3, p, Some(s))),
                            }
                        } else {
                            match sp_value(v, k2, (fuel - 1) as nat) {
                                None => None,
                                Some(k3) => Some((k3, p, t)),
                            }
                        };
                        match step {
                            None => None,
                            Some((k3, p2, t2)) => {
                                let j2 = ws(v, k3);
                                if 0 <= j2 && j2 < v.len() && v[j2] == ',' {
                                    sp_entry_members(v, j2 + 1, p2, t2, tkey, (fuel - 1) as nat)
                                } else if 0 <= j2 && j2 < v.len() && v[j2] == '}' {
                                    match (p2, t2) {
                                        (Some(pp), Some(tt)) => Some(
                                            (EntryV { path: pp, trash: tt }, j2 + 1),
                                        ),
                                        _ => None,
                                    }
                                } else {
                                    None
                                }
                            },
                        }
                    },
                },
            }
        }
    }
}

/// One entry object, after any whitespace.
pub open spec fn sp_entry(v: Seq<char>, i: int, tkey: Seq<char>, fuel: nat) -> Option<
    (EntryV, int),
>
    decreases fuel,
{
    if fuel == 0 {
        None
    } else {
        match sp_tok(v, i, '{') {
            None => None,
            Some(j) => sp_entry_members(v, j, None, None, tkey, (fuel - 1) as nat),
        }
    }
}

/// The entries of the registry array whose `[` is already consumed.
pub open spec fn sp_entries(v: Seq<char>, i: int, tkey: Seq<char>, fuel: nat) -> Option<
    (Seq<EntryV>, int),
>
    decreases fuel,
{
    if fuel == 0 {
        None
    } else {
        let j = ws(v, i);
        if 0 <= j && j < v.len() && v[j] == ']' {
            Some((Seq::empty(), j + 1))
        } else {
            match sp_entry(v, i, tkey, (fuel - 1) as nat) {
                None => None,
                Some((e, k)) => {
                    let j2 = ws(v, k);
                    if 0 <= j2 && j2 < v.len() && v[j2] == ',' {
                        match sp_entries(v, j2 + 1, tkey, (fuel - 1) as nat) {
                            None => None,
                            Some((rest, k2)) => Some((seq![e] + rest, k2)),
                        }
                    } else if 0 <= j2 && j2 < v.len() && v[j2] == ']' {
                        Some((seq![e], j2 + 1))
                    } else {
                        None
                    }
                },
            }
        }
    }
}

/// The members of the document object whose `{` is already consumed: the
/// list member is read as the entry array (a later duplicate overwrites
/// an earlier one), unknown members are skipped; the list must be
/// present when the object closes.
pub open spec fn sp_doc_members(
    v: Seq<char>,
    i: int,
    acc: Option<Seq<EntryV>>,
    lkey: Seq<char>,
    tkey: Seq<char>,
    fuel: nat,
) -> Option<(Seq<EntryV>, int)>
    decreases fuel,
{
    if fuel == 0 {
        None
    } else {
        let j = ws(v, i);
        if 0 <= j && j < v.len() && v[j] == '}' {
            match acc {
                Some(m) => Some((m, j + 1)),
                None => None,
            }
        } else {
            match sp_jstring(v, i) {
                None => None,
                Some((key, k)) => match sp_tok(v, k, ':') {
                    None => None,
                    Some(k2) => {
                        let step: Option<(int, Option<Seq<EntryV>>)> = if key == lkey {
                            match sp_tok(v, k2, '[') {
                                None => None,
                                Some(k3) => match sp_entries(v, k3, tkey, (fuel - 1) as nat) {
                                    None => None,
                                    Some((m2, k4)) => Some((k4, Some(m2))),
                                },
                            }
                        } else {
                            match sp_value(v, k2, (fuel - 1) as nat) {
                                None => None,
                                Some(k4) => Some((k4, acc)),
                            }
                        };
                        match step {
                            None => None,
                            Some((k4, acc2)) => {
                                let j2 = ws(v, k4);
                                if 0 <= j2 && j2 < v.len() && v[j2] == ',' {
                                    sp_doc_members(v, j2 + 1, acc2, lkey, tkey, (fuel - 1) as nat)
                                } else if 0 <= j2 && j2 < v.len() && v[j2] == '}' {
                                    match acc2 {
                                        Some(m) => Some((m, j2 + 1)),
                                        None => None,
                                    }
                                } else {
                                    None
                                }
                            },
                        }
                    },
                },
            }
        }
    }
}

/// The whole document: an object whose list member holds the entries,
/// with nothing but whitespace after it.
pub open spec fn sp_doc(v: Seq<char>, lkey: Seq<char>, tkey: Seq<char>) -> Option<Seq<EntryV>> {
    match sp_tok(v, 0, '{') {
        None => None,
        Some(j) => match sp_doc_members(v, j, None, lkey, tkey, v.len() as nat) {
            None => None,
            Some((m, end)) => if ws(v, end) == v.len() {
                Some(m)
            } else {
                None
            },
        },
    }
}

// ---------------------------------------------------------------------------
// The parser: execution
// ---------------------------------------------------------------------------

/// The view of an optional character vector.
pub open spec fn opt_chars(o: Option<Vec<char>>) -> Option<Seq<char>> {
    match o {
        None => None,
        Some(v) => Some(v@),
    }
}

/// The views of an optional entry vector.
pub open spec fn opt_entries(o: Option<Vec<FileInfo>>) -> Option<Seq<EntryV>> {
    match o {
        None => None,
        Some(v) => Some(views_of(v@)),
    }
}

fn ws_from(v: &Vec<char>, i: usize) -> (r: usize)
    requires
        i <= v.len(),
    ensures
        r as int == ws(v@, i as int),
        i <= r <= v.len(),
{
    let mut j: usize = i;
    while j < v.len() && (v[j] == ' ' || v[j] == '\n' || v[j] == '\t' || v[j] == '\r')
        invariant
            i <= j <= v.len(),
            ws(v@, i as int) == ws(v@, j as int),
        decreases v.len() - j,
    {
        j += 1;
    }
    j
}

fn scalar_from(v: &Vec<char>, i: usize) -> (r: usize)
    requires
        i <= v.len(),
    ensures
        r as int == scan_scalar(v@, i as int),
        i <= r <= v.len(),
{
    let mut j: usize = i;
    while j < v.len() && !(v[j] == ' ' || v[j] == '\n' || v[j] == '\t' || v[j] == '\r' || v[j]
        == ',' || v[j] == '}' || v[j] == ']' || v[j] == '"' || v[j] == '{' || v[j] == '[' || v[j]
        == ':')
        invariant
            i <= j <= v.len(),
            scan_scalar(v@, i as int) == scan_scalar(v@, j as int),
        decreases v.len() - j,
    {
        j += 1;
    }
    j
}

fn p_tok(v: &Vec<char>, i: usize, c: char) -> (r: Option<usize>)
    requires
        i <= v.len(),
    ensures
        r is None <==> sp_tok(v@, i as int, c) is None,
        (r matches Some(j) ==> sp_tok(v@, i as int, c) == Some(j as int) && j <= v.len()),
{
    let j = ws_from(v, i);
    if j < v.len() && v[j] == c {
        Some(j + 1)
    } else {
        None
    }
}

fn parse_string(v: &Vec<char>, i: usize) -> (r: Option<(Vec<char>, usize)>)
    ensures
        r is None <==> sp_string(v@, i as int) is None,
        (r matches Some(p) ==> sp_string(v@, i as int) == Some((p.0@, p.1 as int)) && p.1
            <= v.len()),
    decreases v@.len() - i,
{
    if i >= v.len() {
        return None;
    }
    let c = v[i];
    if c == '"' {
        let empty: Vec<char> = Vec::new();
        return Some((empty, i + 1));
    }
    if c == '\\' {
        if i + 1 < v.len() {
            match parse_string(v, i + 2) {
                None => None,
                Some((s, j)) => {
                    let mut s2 = s;
                    s2.insert(0, v[i + 1]);
                    proof {
                        assert(s2@ =~= seq![v@[i as int + 1]] + s2@.drop_first());
                    }
                    Some((s2, j))
                }
            }
        } else {
            None
        }
    } else {
        match parse_string(v, i + 1) {
            None => None,
            Some((s, j)) => {
                let mut s2 = s;
                s2.insert(0, c);
                proof {
                    assert(s2@ =~= seq![v@[i as int]] + s2@.drop_first());
                }
                Some((s2, j))
            }
        }
    }
}

fn p_jstring(v: &Vec<char>, i: usize) -> (r: Option<(Vec<char>, usize)>)
    requires
        i <= v.len(),
    ensures
        r is None <==> sp_jstring(v@, i as int) is None,
        (r matches Some(p) ==> sp_jstring(v@, i as int) == Some((p.0@, p.1 as int)) && p.1
            <= v.len()),
{
    match p_tok(v, i, '"') {
        None => None,
        Some(j) => parse_string(v, j),
    }
}

fn chars_eq(a: &Vec<char>, b: &Vec<char>) -> (r: bool)
    ensures
        r == (a@ == b@),
{
    if a.len() != b.len() {
        return false;
    }
    let mut i: usize = 0;
    while i < a.len()
        invariant
            i <= a.len(),
            a.len() == b.len(),
            forall|t: int| 0 <= t < i ==> a@[t] == b@[t],
        decreases a.len() - i,
    {
        if a[i] != b[i] {
            return false;
        }
        i += 1;
    }
    proof {
        assert(a@ =~= b@);
    }
    true
}

fn p_value(v: &Vec<char>, i: usize, fuel: usize) -> (r: Option<usize>)
    requires
        i <= v.len(),
    ensures
        r is None <==> sp_value(v@, i as int, fuel as nat) is None,
        (r matches Some(k) ==> sp_value(v@, i as int, fuel as nat) == Some(k as int) && k
            <= v.len()),
    decreases fuel,
{
    if fuel == 0 {
        return None;
    }
    let j = ws_from(v, i);
    if j >= v.len() {
        return None;
    }
    let c = v[j];
    if c == '"' {
        match parse_string(v, j + 1) {
            None => None,
            Some((_s, k)) => Some(k),
        }
    } else if c == '{' {
        p_obj_tail(v, j + 1, fuel - 1)
    } else if c == '[' {
        p_arr_tail(v, j + 1, fuel - 1)
    } else {
        let k = scalar_from(v, j);
        if k == j {
            None
        } else {
            Some(k)
        }
    }
}

fn p_obj_tail(v: &Vec<char>, i: usize, fuel: usize) -> (r: Option<usize>)
    requires
        i <= v.len(),
    ensures
        r is None <==> sp_obj_tail(v@, i as int, fuel as nat) is None,
        (r matches Some(k) ==> sp_obj_tail(v@, i as int, fuel as nat) == Some(k as int) && k
            <= v.len()),
    decreases fuel,
{
    if fuel == 0 {
        return None;
    }
    let j = ws_from(v, i);
    if j < v.len() && v[j] == '}' {
        return Some(j + 1);
    }
    let k = match p_jstring(v, i) {
        None => {
            return None;
        }
        Some((_key, k)) => k,
    };
    let k2 = match p_tok(v, k, ':') {
        None => {
            return None;
        }
        Some(x) => x,
    };
    let k3 = match p_value(v, k2, fuel - 1) {
        None => {
            return None;
        }
        Some(x) => x,
    };
    let j2 = ws_from(v, k3);
    if j2 < v.len() && v[j2] == ',' {
        p_obj_tail(v, j2 + 1, fuel - 1)
    } else if j2 < v.len() && v[j2] == '}' {
        Some(j2 + 1)
    } else {
        None
    }
}

fn p_arr_tail(v: &Vec<char>, i: usize, fuel: usize) -> (r: Option<usize>)
    requires
        i <= v.len(),
    ensures
        r is None <==> sp_arr_tail(v@, i as int, fuel as nat) is None,
        (r matches Some(k) ==> sp_arr_tail(v@, i as int, fuel as nat) == Some(k as int) && k
            <= v.len()),
    decreases fuel,
{
    if fuel == 0 {
        return None;
    }
    let j = ws_from(v, i);
    if j < v.len() && v[j] == ']' {
        return Some(j + 1);
    }
    let k = match p_value(v, i, fuel - 1) {
        None => {
            return None;
        }
        Some(x) => x,
    };
    let j2 = ws_from(v, k);
    if j2 < v.len() && v[j2] == ',' {
        p_arr_tail(v, j2 + 1, fuel - 1)
    } else if j2 < v.len() && v[j2] == ']' {
        Some(j2 + 1)
    } else {
        None
    }
}

fn p_entry_members(
    v: &Vec<char>,
    i: usize,
    p: Option<Vec<char>>,
    t: Option<Vec<char>>,
    tkey: &Vec<char>,
    fuel: usize,
) -> (r: Option<(FileInfo, usize)>)
    requires
        i <= v.len(),
    ensures
        r is None <==> sp_entry_members(
            v@,
            i as int,
            opt_chars(p),
            opt_chars(t),
            tkey@,
            fuel as nat,
        ) is None,
        (r matches Some(x) ==> sp_entry_members(
            v@,
            i as int,
            opt_chars(p),
            opt_chars(t),
            tkey@,
            fuel as nat,
        ) == Some((x.0@, x.1 as int)) && x.1 <= v.len()),
    decreases fuel,
{
    if fuel == 0 {
        return None;
    }
    let j = ws_from(v, i);
    if j < v.len() && v[j] == '}' {
        return match (p, t) {
            (Some(pp), Some(tt)) => Some(
                (FileInfo::from_paths(chars_to_string(&pp), chars_to_string(&tt)), j + 1),
            ),
            _ => None,
        };
    }
    let (key, k) = match p_jstring(v, i) {
        None => {
            return None;
        }
        Some(x) => x,
    };
    let k2 = match p_tok(v, k, ':') {
        None => {
            return None;
        }
        Some(x) => x,
    };
    let pk = path_key_chars();
    let (k3, p2, t2): (usize, Option<Vec<char>>, Option<Vec<char>>) = if chars_eq(&key, &pk) {
        match p_jstring(v, k2) {
            None => {
                return None;
            }
            Some((s, k3)) => (k3, Some(s), t),
        }
    } else if chars_eq(&key, tkey) {
        match p_jstring(v, k2) {
            None => {
                return None;
            }
            Some((s, k3)) => (k3, p, Some(s)),
        }
    } else {
        match p_value(v, k2, fuel - 1) {
            None => {
                return None;
            }
            Some(k3) => (k3, p, t),
        }
    };
    let j2 = ws_from(v, k3);
    if j2 < v.len() && v[j2] == ',' {
        p_entry_members(v, j2 + 1, p2, t2, tkey, fuel - 1)
    } else if j2 < v.len() && v[j2] == '}' {
        match (p2, t2) {
            (Some(pp), Some(tt)) => Some(
                (FileInfo::from_paths(chars_to_string(&pp), chars_to_string(&tt)), j2 + 1),
            ),
            _ => None,
        }
    } else {
        None
    }
}

fn p_entry(v: &Vec<char>, i: usize, tkey: &Vec<char>, fuel: usize) -> (r: Option<
    (FileInfo, usize),
>)
    requires
        i <= v.len(),
    ensures
        r is None <==> sp_entry(v@, i as int, tkey@, fuel as nat) is None,
        (r matches Some(x) ==> sp_entry(v@, i as int, tkey@, fuel as nat) == Some(
            (x.0@, x.1 as int),
        ) && x.1 <= v.len()),
    decreases fuel,
{
    if fuel == 0 {
        return None;
    }
    match p_tok(v, i, '{') {
        None => None,
        Some(j) => p_entry_members(v, j, None, None, tkey, fuel - 1),
    }
}

fn p_entries(v: &Vec<char>, i: usize, tkey: &Vec<char>, fuel: usize) -> (r: Option<
    (Vec<FileInfo>, usize),
>)
    requires
        i <= v.len(),
    ensures
        r is None <==> sp_entries(v@, i as int, tkey@, fuel as nat) is None,
        (r matches Some(x) ==> sp_entries(v@, i as int, tkey@, fuel as nat) == Some(
            (views_of(x.0@), x.1 as int),
        ) && x.1 <= v.len()),
    decreases fuel,
{
    if fuel == 0 {
        return None;
    }
    let j = ws_from(v, i);
    if j < v.len() && v[j] == ']' {
        let empty: Vec<FileInfo> = Vec::new();
        proof {
            assert(views_of(empty@) =~= Seq::<EntryV>::empty());
        }
        return Some((empty, j + 1));
    }
    let (e, k) = match p_entry(v, i, tkey, fuel - 1) {
        None => {
            return None;
        }
        Some(x) => x,
    };
    let ghost ev = e@;
    let j2 = ws_from(v, k);
    if j2 < v.len() && v[j2] == ',' {
        match p_entries(v, j2 + 1, tkey, fuel - 1) {
            None => None,
            Some((rest, k2)) => {
                let ghost rv = views_of(rest@);
                let mut out = rest;
                out.insert(0, e);
                proof {
                    assert(views_of(out@) =~= seq![ev] + rv);
                }
                Some((out, k2))
            }
        }
    } else if j2 < v.len() && v[j2] == ']' {
        let mut single: Vec<FileInfo> = Vec::new();
        single.push(e);
        proof {
            assert(views_of(single@) =~= seq![ev]);
        }
        Some((single, j2 + 1))
    } else {
        None
    }
}

fn p_doc_members(
    v: &Vec<char>,
    i: usize,
    acc: Option<Vec<FileInfo>>,
    lkey: &Vec<char>,
    tkey: &Vec<char>,
    fuel: usize,
) -> (r: Option<(Vec<FileInfo>, usize)>)
    requires
        i <= v.len(),
    ensures
        r is None <==> sp_doc_members(
            v@,
            i as int,
            opt_entries(acc),
            lkey@,
            tkey@,
            fuel as nat,
        ) is None,
        (r matches Some(x) ==> sp_doc_members(
            v@,
            i as int,
            opt_entries(acc),
            lkey@,
            tkey@,
            fuel as nat,
        ) == Some((views_of(x.0@), x.1 as int)) && x.1 <= v.len()),
    decreases fuel,
{
    if fuel == 0 {
        return None;
    }
    let j = ws_from(v, i);
    if j < v.len() && v[j] == '}' {
        return match acc {
            Some(m) => Some((m, j + 1)),
            None => None,
        };
    }
    let (key, k) = match p_jstring(v, i) {
        None => {
            return None;
        }
        Some(x) => x,
    };
    let k2 = match p_tok(v, k, ':') {
        None => {
            return None;
        }
        Some(x) => x,
    };
    let (k4, acc2): (usize, Option<Vec<FileInfo>>) = if chars_eq(&key, lkey) {
        let k3 = match p_tok(v, k2, '[') {
            None => {
                return None;
            }
            Some(x) => x,
        };
        match p_entries(v, k3, tkey, fuel - 1) {
            None => {
                return None;
            }
            Some((m2, k4)) => (k4, Some(m2)),
        }
    } else {
        match p_value(v, k2, fuel - 1) {
            None => {
                return None;
            }
            Some(k4) => (k4, acc),
        }
    };
    let j2 = ws_from(v, k4);
    if j2 < v.len() && v[j2] == ',' {
        p_doc_members(v, j2 + 1, acc2, lkey, tkey, fuel - 1)
    } else if j2 < v.len() && v[j2] == '}' {
        match acc2 {
            Some(m) => Some((m, j2 + 1)),
            None => None,
        }
    } else {
        None
    }
}

fn parse_doc(v: &Vec<char>, lkey: &Vec<char>, tkey: &Vec<char>) -> (r: Option<Vec<FileInfo>>)
    ensures
        r is None <==> sp_doc(v@, lkey@, tkey@) is None,
        (r matches Some(fs) ==> sp_doc(v@, lkey@, tkey@) == Some(views_of(fs@))),
{
    let j = match p_tok(v, 0, '{') {
        None => {
            return None;
        }
        Some(x) => x,
    };
    match p_doc_members(v, j, None, lkey, tkey, v.len()) {
        None => None,
        Some((files, end)) => {
            let w = ws_from(v, end);
            if w == v.len() {
                Some(files)
            } else {
                None
            }
        }
    }
}

// ---------------------------------------------------------------------------
// The two layouts
// ---------------------------------------------------------------------------

impl FileList {
    /// The registry rendered as its persisted JSON document.
    pub fn to_json(&self) -> (r: String)
        ensures
            r@ == json_doc(self@, files_key(), path_trash_key()),
    {
        let mut out: Vec<char> = Vec::new();
        let lkey = files_key_chars();
        let tkey = path_trash_key_chars();
        push_hdr(&mut out, &lkey);
        let files = self.files();
        push_entries(&mut out, files, &tkey, 0, true);
        push_ftr(&mut out);
        proof {
            assert(views_of(files@).subrange(0, files@.len() as int) =~= self@);
            assert(out@ =~= json_doc(self@, files_key(), path_trash_key()));
        }
        chars_to_string(&out)
    }

    /// The registry read back from a persisted JSON document.  Any
    /// document of the right shape loads, whatever its whitespace, member
    /// order or unknown members; anything else is rejected as corrupt.
    pub fn from_json(s: &str) -> (r: Result<FileList, Error>)
        ensures
            sp_doc(s@, files_key(), path_trash_key()) is None ==> r == Err::<FileList, Error>(
                Error::RegistryCorrupt,
            ),
            forall|m: Seq<EntryV>|
                sp_doc(s@, files_key(), path_trash_key()) == Some(m) ==> (r matches Ok(reg)
                    && reg@ == m),
    {
        let v = string_chars(s);
        let lkey = files_key_chars();
        let tkey = path_trash_key_chars();
        let files = match parse_doc(&v, &lkey, &tkey) {
            None => {
                return Err(Error::RegistryCorrupt);
            }
            Some(fs) => fs,
        };
        let mut reg = FileList::new();
        let mut idx: usize = 0;
        while idx < files.len()
            invariant
                idx <= files.len(),
                reg@ == views_of(files@).subrange(0, idx as int),
            decreases files.len() - idx,
        {
            reg.add(&files[idx]);
            idx += 1;
            proof {
                assert(reg@ =~= views_of(files@).subrange(0, idx as int));
            }
        }
        proof {
            assert(reg@ =~= views_of(files@));
        }
        Ok(reg)
    }
}

impl FilesInTrash {
    /// The registry rendered as its persisted JSON document, in the
    /// alternate layout's keys.
    #[verifier::loop_isolation(false)]
    pub fn to_json(&self) -> (r: String)
        ensures
            r@ == json_doc(self@, files_in_trash_key(), trash_key()),
    {
        let fs = self.files_in_trash();
        let mut conv: Vec<FileInfo> = Vec::new();
        let mut i: usize = 0;
        while i < fs.len()
            invariant
                i <= fs.len(),
                views_of(conv@) == file_views_of(fs@).subrange(0, i as int),
            decreases fs.len() - i,
        {
            let e = FileInfo::from_paths(fs[i].path().clone(), fs[i].trash().clone());
            proof {
                assert(e@ =~= fs@[i as int]@);
            }
            conv.push(e);
            proof {
                assert(views_of(conv@) =~= file_views_of(fs@).subrange(0, i + 1));
            }
            i += 1;
        }
        proof {
            assert(file_views_of(fs@).subrange(0, fs@.len() as int) =~= file_views_of(fs@));
        }
        let mut out: Vec<char> = Vec::new();
        let lkey = files_in_trash_key_chars();
        let tkey = trash_key_chars();
        push_hdr(&mut out, &lkey);
        push_entries(&mut out, &conv, &tkey, 0, true);
        push_ftr(&mut out);
        proof {
            assert(views_of(conv@).subrange(0, conv@.len() as int) =~= self@);
            assert(out@ =~= json_doc(self@, files_in_trash_key(), trash_key()));
        }
        chars_to_string(&out)
    }

    /// The registry read back from a persisted JSON document in the
    /// alternate layout's keys; as liberal as the main layout's reader.
    #[verifier::loop_isolation(false)]
    pub fn from_json(s: &str) -> (r: Result<FilesInTrash, Error>)
        ensures
            sp_doc(s@, files_in_trash_key(), trash_key()) is None ==> r == Err::<
                FilesInTrash,
                Error,
            >(Error::RegistryCorrupt),
            forall|m: Seq<EntryV>|
                sp_doc(s@, files_in_trash_key(), trash_key()) == Some(m) ==> (r matches Ok(reg)
                    && reg@ == m),
    {
        let v = string_chars(s);
        let lkey = files_in_trash_key_chars();
        let tkey = trash_key_chars();
        let files = match parse_doc(&v, &lkey, &tkey) {
            None => {
                return Err(Error::RegistryCorrupt);
            }
            Some(fs) => fs,
        };
        let mut conv: Vec<File> = Vec::new();
        let mut idx: usize = 0;
        while idx < files.len()
            invariant
                idx <= files.len(),
                file_views_of(conv@) == views_of(files@).subrange(0, idx as int),
            decreases files.len() - idx,
        {
            let f = File::from_paths(files[idx].path().clone(), files[idx].path_trash().clone());
            proof {
                assert(f@ =~= files@[idx as int]@);
            }
            conv.push(f);
            proof {
                assert(file_views_of(conv@) =~= views_of(files@).subrange(0, idx + 1));
            }
            idx += 1;
        }
        proof {
            assert(views_of(files@).subrange(0, files@.len() as int) =~= views_of(files@));
        }
        Ok(FilesInTrash::new(conv))
    }
}

// ---------------------------------------------------------------------------
// Loading inverts persisting
// ---------------------------------------------------------------------------

/// A whitespace run ends at the first non-whitespace position.
proof fn lemma_ws_run(v: Seq<char>, i: int, j: int)
    requires
        0 <= i <= j <= v.len(),
        forall|t: int| i <= t < j ==> is_ws(#[trigger] v[t]),
        j < v.len() ==> !is_ws(v[j]),
    ensures
        ws(v, i) == j,
    decreases j - i,
{
    if i < j {
        lemma_ws_run(v, i + 1, j);
    }
}

/// A string without quotes or backslashes escapes to itself.
proof fn lemma_esc_plain(s: Seq<char>)
    requires
        escape_free(s),
    ensures
        esc_seq(s) == s,
    decreases s.len(),
{
    if s.len() > 0 {
        assert(forall|k: int| 0 <= k < s.drop_first().len() ==> s.drop_first()[k] == s[k + 1]);
        lemma_esc_plain(s.drop_first());
        assert(esc_seq(s) =~= s);
    }
}

/// An escaped string body followed by a closing quote parses back to the
/// original string.
proof fn lemma_sp_string_esc(v: Seq<char>, i: int, s: Seq<char>)
    requires
        0 <= i,
        i + esc_seq(s).len() + 1 <= v.len(),
        v.subrange(i, i + esc_seq(s).len() as int) == esc_seq(s),
        v[i + esc_seq(s).len() as int] == '"',
    ensures
        sp_string(v, i) == Some((s, i + esc_seq(s).len() + 1)),
    decreases s.len(),
{
    if s.len() == 0 {
        assert(v[i] == '"');
    } else {
        let c = s[0];
        let e0 = esc_char(c);
        let rest = esc_seq(s.drop_first());
        assert(esc_seq(s) == e0 + rest);
        assert(v.subrange(i, i + esc_seq(s).len() as int)[0] == (e0 + rest)[0]);
        if c == '"' || c == '\\' {
            assert(v[i] == '\\');
            assert(v.subrange(i, i + esc_seq(s).len() as int)[1] == (e0 + rest)[1]);
            assert(v[i + 1] == c);
            assert(v.subrange(i + 2, i + 2 + rest.len() as int) =~= rest) by {
                assert forall|t: int| 0 <= t < rest.len() implies v.subrange(
                    i + 2,
                    i + 2 + rest.len() as int,
                )[t] == rest[t] by {
                    assert(v.subrange(i, i + esc_seq(s).len() as int)[t + 2] == (e0 + rest)[t
                        + 2]);
                }
            }
            assert(v[i + 2 + rest.len() as int] == '"');
            lemma_sp_string_esc(v, i + 2, s.drop_first());
            assert(seq![v[i + 1]] + s.drop_first() =~= s);
        } else {
            assert(v[i] == c);
            assert(v[i] != '"' && v[i] != '\\');
            assert(v.subrange(i + 1, i + 1 + rest.len() as int) =~= rest) by {
                assert forall|t: int| 0 <= t < rest.len() implies v.subrange(
                    i + 1,
                    i + 1 + rest.len() as int,
                )[t] == rest[t] by {
                    assert(v.subrange(i, i + esc_seq(s).len() as int)[t + 1] == (e0 + rest)[t
                        + 1]);
                }
            }
            assert(v[i + 1 + rest.len() as int] == '"');
            lemma_sp_string_esc(v, i + 1, s.drop_first());
            assert(seq![v[i]] + s.drop_first() =~= s);
        }
    }
}

/// The member keys contain nothing needing escape.
proof fn lemma_keys_plain()
    ensures
        escape_free(path_key()),
        escape_free(path_trash_key()),
        escape_free(trash_key()),
        escape_free(files_key()),
        escape_free(files_in_trash_key()),
        esc_seq(path_key()) == path_key(),
{
    assert(escape_free(path_key()));
    assert(escape_free(path_trash_key()));
    assert(escape_free(trash_key()));
    assert(escape_free(files_key()));
    assert(escape_free(files_in_trash_key()));
    lemma_esc_plain(path_key());
}

/// A non-first rendered entry list is a comma before the same list
/// rendered first.
proof fn lemma_json_entries_comma(m: Seq<EntryV>, tkey: Seq<char>)
    requires
        m.len() > 0,
    ensures
        json_entries(m, tkey, false) == seq![','] + json_entries(m, tkey, true),
{
    assert(json_entries(m, tkey, false) =~= seq![','] + json_entries(m, tkey, true));
}

/// Rendered entry lists grow with the lists they render.
proof fn lemma_json_entries_ge(m: Seq<EntryV>, tkey: Seq<char>, first: bool)
    ensures
        json_entries(m, tkey, first).len() >= 5 * m.len(),
    decreases m.len(),
{
    if m.len() > 0 {
        lemma_json_entries_ge(m.drop_first(), tkey, false);
    }
}

/// A rendered entry parses back to itself.
#[verifier::rlimit(100)]
proof fn lemma_entry_accepts(v: Seq<char>, b: int, e: EntryV, tkey: Seq<char>, fuel: nat)
    requires
        0 <= b,
        b + json_entry(e, tkey).len() <= v.len(),
        v.subrange(b, b + json_entry(e, tkey).len() as int) == json_entry(e, tkey),
        escape_free(tkey),
        tkey != path_key(),
        fuel >= 3,
    ensures
        sp_entry(v, b, tkey, fuel) == Some((e, b + json_entry(e, tkey).len())),
{
    lemma_keys_plain();
    lemma_esc_plain(tkey);
    let p = esc_seq(e.path);
    let t = esc_seq(e.trash);
    let tl = tkey.len() as int;
    let e1 = p.len() as int;
    let e2 = t.len() as int;
    let je = json_entry(e, tkey);
    let total = je.len() as int;
    assert(je == blk_open() + p + seq!['"'] + blk_mid(tkey) + t + seq!['"'] + blk_end());
    assert(blk_mid(tkey).len() == 13 + tl);
    assert(total == 43 + tl + e1 + e2);
    let mo = 23 + e1;
    let toff = 36 + e1 + tl;
    let zoff = 37 + e1 + tl + e2;
    // the entry object opens
    assert forall|u: int| b <= u < b + 5 implies is_ws(#[trigger] v[u]) by {
        assert(v.subrange(b, b + total)[u - b] == je[u - b]);
        assert(je[u - b] == blk_open()[u - b]);
    }
    assert(v[b + 5] == '{' && !is_ws(v[b + 5])) by {
        assert(v.subrange(b, b + total)[5int] == je[5]);
        assert(je[5] == blk_open()[5]);
    }
    lemma_ws_run(v, b, b + 5);
    assert(sp_tok(v, b, '{') == Some(b + 6));
    // first member: the `path` key
    assert forall|u: int| b + 6 <= u < b + 13 implies is_ws(#[trigger] v[u]) by {
        assert(v.subrange(b, b + total)[u - b] == je[u - b]);
        assert(je[u - b] == blk_open()[u - b]);
    }
    assert(v[b + 13] == '"' && !is_ws(v[b + 13]) && v[b + 13] != '}') by {
        assert(v.subrange(b, b + total)[13int] == je[13]);
        assert(je[13] == blk_open()[13]);
    }
    lemma_ws_run(v, b + 6, b + 13);
    assert(sp_tok(v, b + 6, '"') == Some(b + 14));
    assert(v.subrange(b + 14, b + 18) =~= path_key()) by {
        assert forall|k: int| 0 <= k < 4 implies v.subrange(b + 14, b + 18)[k]
            == path_key()[k] by {
            assert(v.subrange(b, b + total)[14 + k] == je[14 + k]);
            assert(je[14 + k] == blk_open()[14 + k]);
        }
    }
    assert(v[b + 18] == '"') by {
        assert(v.subrange(b, b + total)[18int] == je[18]);
        assert(je[18] == blk_open()[18]);
    }
    lemma_sp_string_esc(v, b + 14, path_key());
    assert(sp_jstring(v, b + 6) == Some((path_key(), b + 19)));
    assert(v[b + 19] == ':' && !is_ws(v[b + 19])) by {
        assert(v.subrange(b, b + total)[19int] == je[19]);
        assert(je[19] == blk_open()[19]);
    }
    lemma_ws_run(v, b + 19, b + 19);
    assert(sp_tok(v, b + 19, ':') == Some(b + 20));
    // its value: the escaped original path
    assert(v[b + 20] == ' ' && is_ws(v[b + 20])) by {
        assert(v.subrange(b, b + total)[20int] == je[20]);
        assert(je[20] == blk_open()[20]);
    }
    assert(v[b + 21] == '"' && !is_ws(v[b + 21])) by {
        assert(v.subrange(b, b + total)[21int] == je[21]);
        assert(je[21] == blk_open()[21]);
    }
    lemma_ws_run(v, b + 20, b + 21);
    assert(sp_tok(v, b + 20, '"') == Some(b + 22));
    assert(v.subrange(b + 22, b + 22 + e1) =~= p) by {
        assert forall|k: int| 0 <= k < e1 implies v.subrange(b + 22, b + 22 + e1)[k] == p[k] by {
            assert(v.subrange(b, b + total)[22 + k] == je[22 + k]);
            assert(je[22 + k] == p[k]);
        }
    }
    assert(v[b + 22 + e1] == '"') by {
        assert(v.subrange(b, b + total)[22 + e1] == je[22 + e1]);
        assert(je[22 + e1] == '"');
    }
    lemma_sp_string_esc(v, b + 22, e.path);
    assert(sp_jstring(v, b + 20) == Some((e.path, b + 23 + e1)));
    // the separating comma, then the trash-side member
    assert(v[b + mo] == ',' && !is_ws(v[b + mo])) by {
        assert(v.subrange(b, b + total)[mo] == je[mo]);
        assert(je[mo] == blk_mid(tkey)[0]);
    }
    lemma_ws_run(v, b + mo, b + mo);
    assert forall|u: int| b + mo + 1 <= u < b + mo + 8 implies is_ws(#[trigger] v[u]) by {
        assert(v.subrange(b, b + total)[u - b] == je[u - b]);
        assert(je[u - b] == blk_mid(tkey)[u - b - mo]);
    }
    assert(v[b + mo + 8] == '"' && !is_ws(v[b + mo + 8]) && v[b + mo + 8] != '}') by {
        assert(v.subrange(b, b + total)[mo + 8] == je[mo + 8]);
        assert(je[mo + 8] == blk_mid(tkey)[8]);
    }
    lemma_ws_run(v, b + mo + 1, b + mo + 8);
    assert(sp_tok(v, b + mo + 1, '"') == Some(b + mo + 9));
    assert(v.subrange(b + mo + 9, b + mo + 9 + tl) =~= tkey) by {
        assert forall|k: int| 0 <= k < tl implies v.subrange(b + mo + 9, b + mo + 9 + tl)[k]
            == tkey[k] by {
            assert(v.subrange(b, b + total)[mo + 9 + k] == je[mo + 9 + k]);
            assert(je[mo + 9 + k] == blk_mid(tkey)[9 + k]);
            assert(blk_mid(tkey)[9 + k] == tkey[k]);
        }
    }
    assert(v[b + mo + 9 + tl] == '"') by {
        assert(v.subrange(b, b + total)[mo + 9 + tl] == je[mo + 9 + tl]);
        assert(je[mo + 9 + tl] == blk_mid(tkey)[9 + tl]);
    }
    lemma_sp_string_esc(v, b + mo + 9, tkey);
    assert(sp_jstring(v, b + mo + 1) == Some((tkey, b + mo + 10 + tl)));
    assert(v[b + mo + 10 + tl] == ':' && !is_ws(v[b + mo + 10 + tl])) by {
        assert(v.subrange(b, b + total)[mo + 10 + tl] == je[mo + 10 + tl]);
        assert(je[mo + 10 + tl] == blk_mid(tkey)[10 + tl]);
    }
    lemma_ws_run(v, b + mo + 10 + tl, b + mo + 10 + tl);
    assert(sp_tok(v, b + mo + 10 + tl, ':') == Some(b + mo + 11 + tl));
    // its value: the escaped trash-side path
    assert(v[b + mo + 11 + tl] == ' ' && is_ws(v[b + mo + 11 + tl])) by {
        assert(v.subrange(b, b + total)[mo + 11 + tl] == je[mo + 11 + tl]);
        assert(je[mo + 11 + tl] == blk_mid(tkey)[11 + tl]);
    }
    assert(v[b + mo + 12 + tl] == '"' && !is_ws(v[b + mo + 12 + tl])) by {
        assert(v.subrange(b, b + total)[mo + 12 + tl] == je[mo + 12 + tl]);
        assert(je[mo + 12 + tl] == blk_mid(tkey)[12 + tl]);
    }
    lemma_ws_run(v, b + mo + 11 + tl, b + mo + 12 + tl);
    assert(sp_tok(v, b + mo + 11 + tl, '"') == Some(b + toff));
    assert(v.subrange(b + toff, b + toff + e2) =~= t) by {
        assert forall|k: int| 0 <= k < e2 implies v.subrange(b + toff, b + toff + e2)[k]
            == t[k] by {
            assert(v.subrange(b, b + total)[toff + k] == je[toff + k]);
            assert(je[toff + k] == t[k]);
        }
    }
    assert(v[b + toff + e2] == '"') by {
        assert(v.subrange(b, b + total)[toff + e2] == je[toff + e2]);
        assert(je[toff + e2] == '"');
    }
    lemma_sp_string_esc(v, b + toff, e.trash);
    assert(sp_jstring(v, b + mo + 11 + tl) == Some((e.trash, b + zoff)));
    // the entry object closes
    assert forall|u: int| b + zoff <= u < b + zoff + 5 implies is_ws(#[trigger] v[u]) by {
        assert(v.subrange(b, b + total)[u - b] == je[u - b]);
        assert(je[u - b] == blk_end()[u - b - zoff]);
    }
    assert(v[b + zoff + 5] == '}' && !is_ws(v[b + zoff + 5])) by {
        assert(v.subrange(b, b + total)[zoff + 5] == je[zoff + 5]);
        assert(je[zoff + 5] == blk_end()[5]);
    }
    lemma_ws_run(v, b + zoff, b + zoff + 5);
    let end = b + zoff + 6;
    assert(end == b + total);
    assert(sp_entry_members(v, b + mo + 1, Some(e.path), None, tkey, (fuel - 2) as nat) == Some(
        (EntryV { path: e.path, trash: e.trash }, end),
    ));
    assert(EntryV { path: e.path, trash: e.trash } == e);
    assert(sp_entry_members(v, b + 6, None, None, tkey, (fuel - 1) as nat) == Some((e, end)));
}

/// A rendered entry list followed by the array close parses back to the
/// original list.
#[verifier::rlimit(100)]
proof fn lemma_entries_accept(v: Seq<char>, a: int, m: Seq<EntryV>, tkey: Seq<char>, fuel: nat)
    requires
        0 <= a,
        a + json_entries(m, tkey, true).len() + 4 <= v.len(),
        v.subrange(a, a + json_entries(m, tkey, true).len() + 4) == json_entries(m, tkey, true)
            + seq!['\n', ' ', ' ', ']'],
        escape_free(tkey),
        tkey != path_key(),
        fuel >= 4 * m.len() + 1,
    ensures
        sp_entries(v, a, tkey, fuel) == Some((m, a + json_entries(m, tkey, true).len() + 4)),
    decreases m.len(),
{
    let je = json_entries(m, tkey, true);
    let close = seq!['\n', ' ', ' ', ']'];
    let w = a + je.len() as int + 4;
    if m.len() == 0 {
        assert forall|u: int| a <= u < a + 3 implies is_ws(#[trigger] v[u]) by {
            assert(v.subrange(a, w)[u - a] == (je + close)[u - a]);
            assert((je + close)[u - a] == close[u - a]);
        }
        assert(v[a + 3] == ']' && !is_ws(v[a + 3])) by {
            assert(v.subrange(a, w)[3int] == (je + close)[3]);
            assert((je + close)[3] == close[3]);
        }
        lemma_ws_run(v, a, a + 3);
    } else {
        let e0 = m[0];
        let rest = m.drop_first();
        let je0 = json_entry(e0, tkey);
        let l0 = je0.len() as int;
        assert(je == je0 + json_entries(rest, tkey, false));
        assert(l0 >= 22) by {
            assert(je0 == blk_open() + esc_seq(e0.path) + seq!['"'] + blk_mid(tkey) + esc_seq(
                e0.trash,
            ) + seq!['"'] + blk_end());
        }
        assert(v.subrange(a, a + l0) =~= je0) by {
            assert forall|k: int| 0 <= k < l0 implies v.subrange(a, a + l0)[k] == je0[k] by {
                assert(v.subrange(a, w)[k] == (je + close)[k]);
                assert((je + close)[k] == je0[k]);
            }
        }
        lemma_entry_accepts(v, a, e0, tkey, (fuel - 1) as nat);
        // the list head check sees the entry's brace, not the close
        assert forall|u: int| a <= u < a + 5 implies is_ws(#[trigger] v[u]) by {
            assert(v.subrange(a, a + l0)[u - a] == je0[u - a]);
            assert(je0[u - a] == blk_open()[u - a]);
        }
        assert(v[a + 5] == '{' && !is_ws(v[a + 5]) && v[a + 5] != ']') by {
            assert(v.subrange(a, a + l0)[5int] == je0[5]);
            assert(je0[5] == blk_open()[5]);
        }
        lemma_ws_run(v, a, a + 5);
        let k = a + l0;
        if rest.len() == 0 {
            assert(je.len() == l0) by {
                assert(je =~= je0);
            }
            assert forall|u: int| k <= u < k + 3 implies is_ws(#[trigger] v[u]) by {
                assert(v.subrange(a, w)[u - a] == (je + close)[u - a]);
                assert((je + close)[u - a] == close[u - a - l0]);
            }
            assert(v[k + 3] == ']' && !is_ws(v[k + 3])) by {
                assert(v.subrange(a, w)[l0 + 3] == (je + close)[l0 + 3]);
                assert((je + close)[l0 + 3] == close[3]);
            }
            lemma_ws_run(v, k, k + 3);
            assert(seq![e0] =~= m);
        } else {
            lemma_json_entries_comma(rest, tkey);
            assert(v[k] == ',' && !is_ws(v[k])) by {
                assert(v.subrange(a, w)[l0] == (je + close)[l0]);
                assert((je + close)[l0] == json_entries(rest, tkey, false)[0]);
            }
            lemma_ws_run(v, k, k);
            let a2 = k + 1;
            let jer = json_entries(rest, tkey, true);
            assert(v.subrange(a2, a2 + jer.len() + 4) =~= jer + close) by {
                assert forall|u: int| 0 <= u < jer.len() + 4 implies v.subrange(
                    a2,
                    a2 + jer.len() + 4,
                )[u] == (jer + close)[u] by {
                    assert(v.subrange(a, w)[l0 + 1 + u] == (je + close)[l0 + 1 + u]);
                    assert((je + close)[l0 + 1 + u] == (jer + close)[u]) by {
                        assert(je.len() == l0 + 1 + jer.len());
                        if u < jer.len() {
                            assert(je[l0 + 1 + u] == (seq![','] + jer)[1 + u]) by {
                                assert(je == je0 + (seq![','] + jer));
                            }
                        }
                    }
                }
            }
            lemma_entries_accept(v, a2, rest, tkey, (fuel - 1) as nat);
            assert(seq![e0] + rest =~= m);
            assert(a2 + jer.len() + 4 == w);
        }
    }
}

/// The fixed steps of parsing a rendered document: the opening, the
/// list key, the array bracket, and the closing.
#[verifier::rlimit(100)]
proof fn lemma_doc_frame(m: Seq<EntryV>, lkey: Seq<char>, tkey: Seq<char>)
    requires
        escape_free(lkey),
    ensures
        ({
            let v = json_doc(m, lkey, tkey);
            let ll = lkey.len() as int;
            let jel = json_entries(m, tkey, true).len() as int;
            let a = 9 + ll;
            sp_tok(v, 0, '{') == Some(1int) && sp_jstring(v, 1) == Some((lkey, 6 + ll)) && sp_tok(
                v,
                6 + ll,
                ':',
            ) == Some(7 + ll) && sp_tok(v, 7 + ll, '[') == Some(9 + ll) && v.subrange(
                a,
                a + jel + 4,
            ) == json_entries(m, tkey, true) + seq!['\n', ' ', ' ', ']'] && ws(v, a + jel + 4) == a
                + jel + 5 && v[a + jel + 5] == '}' && v.len() == a + jel + 6 && ws(
                v,
                v.len() as int,
            ) == v.len() && v[4] != '}'
        }),
{
    lemma_esc_plain(lkey);
    let v = json_doc(m, lkey, tkey);
    let ll = lkey.len() as int;
    let je = json_entries(m, tkey, true);
    let jel = je.len() as int;
    let h = hdr(lkey);
    assert(v == h + je + ftr());
    assert(h.len() == 9 + ll);
    assert(v.len() == 15 + ll + jel);
    assert(v[0] == '{' && !is_ws(v[0])) by {
        assert(v[0] == h[0]);
    }
    lemma_ws_run(v, 0, 0);
    assert forall|u: int| 1 <= u < 4 implies is_ws(#[trigger] v[u]) by {
        assert(v[u] == h[u]);
    }
    assert(v[4] == '"' && !is_ws(v[4]) && v[4] != '}') by {
        assert(v[4] == h[4]);
    }
    lemma_ws_run(v, 1, 4);
    assert(v.subrange(5, 5 + ll) =~= lkey) by {
        assert forall|k: int| 0 <= k < ll implies v.subrange(5, 5 + ll)[k] == lkey[k] by {
            assert(v[5 + k] == h[5 + k]);
            assert(h[5 + k] == lkey[k]);
        }
    }
    assert(v[5 + ll] == '"') by {
        assert(v[5 + ll] == h[5 + ll]);
    }
    lemma_sp_string_esc(v, 5, lkey);
    assert(v[6 + ll] == ':' && !is_ws(v[6 + ll])) by {
        assert(v[6 + ll] == h[6 + ll]);
    }
    lemma_ws_run(v, 6 + ll, 6 + ll);
    assert(v[7 + ll] == ' ' && is_ws(v[7 + ll])) by {
        assert(v[7 + ll] == h[7 + ll]);
    }
    assert(v[8 + ll] == '[' && !is_ws(v[8 + ll])) by {
        assert(v[8 + ll] == h[8 + ll]);
    }
    lemma_ws_run(v, 7 + ll, 8 + ll);
    let a = 9 + ll;
    assert(v.subrange(a, a + jel + 4) =~= je + seq!['\n', ' ', ' ', ']']) by {
        assert forall|u: int| 0 <= u < jel + 4 implies v.subrange(a, a + jel + 4)[u] == (je
            + seq!['\n', ' ', ' ', ']'])[u] by {
            assert(v[a + u] == (h + je + ftr())[a + u]);
        }
    }
    let d = a + jel + 4;
    assert(v[d] == '\n' && is_ws(v[d])) by {
        assert(v[d] == (h + je + ftr())[d]);
    }
    assert(v[d + 1] == '}' && !is_ws(v[d + 1])) by {
        assert(v[d + 1] == (h + je + ftr())[d + 1]);
    }
    lemma_ws_run(v, d, d + 1);
    lemma_ws_run(v, v.len() as int, v.len() as int);
}

/// The generic round trip: a rendered document parses back to the list
/// it was rendered from, whatever the two key names (as long as they are
/// escape-free and the trash key is not the path key).
#[verifier::rlimit(100)]
proof fn lemma_doc_accepts(m: Seq<EntryV>, lkey: Seq<char>, tkey: Seq<char>)
    requires
        escape_free(lkey),
        escape_free(tkey),
        tkey != path_key(),
    ensures
        sp_doc(json_doc(m, lkey, tkey), lkey, tkey) == Some(m),
{
    lemma_doc_frame(m, lkey, tkey);
    let v = json_doc(m, lkey, tkey);
    let ll = lkey.len() as int;
    let jel = json_entries(m, tkey, true).len() as int;
    let a = 9 + ll;
    lemma_json_entries_ge(m, tkey, true);
    lemma_entries_accept(v, a, m, tkey, (v.len() - 1) as nat);
    assert(sp_doc_members(v, 1, None, lkey, tkey, v.len() as nat) == Some((m, v.len() as int)));
}

/// Law: loading a persisted registry document yields the registry it was
/// written from, entries and order unchanged.
pub proof fn lemma_load_inverts_persist(m: Seq<EntryV>)
    ensures
        sp_doc(json_doc(m, files_key(), path_trash_key()), files_key(), path_trash_key())
            == Some(m),
{
    lemma_keys_plain();
    assert(path_trash_key() != path_key()) by {
        assert(path_trash_key().len() != path_key().len());
    }
    lemma_doc_accepts(m, files_key(), path_trash_key());
}

/// Law: the alternate layout's documents round-trip the same way.
pub proof fn lemma_alternate_load_inverts_persist(m: Seq<EntryV>)
    ensures
        sp_doc(json_doc(m, files_in_trash_key(), trash_key()), files_in_trash_key(), trash_key())
            == Some(m),
{
    lemma_keys_plain();
    assert(trash_key() != path_key()) by {
        assert(trash_key().len() != path_key().len());
    }
    lemma_doc_accepts(m, files_in_trash_key(), trash_key());
}

} // verus!
