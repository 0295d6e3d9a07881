//! Rendering one file's contents into an output block.
use vstd::prelude::*;

use crate::paths::{extension, extension_bounds};
use crate::text::{chars_of, push_range, range_eq_str};

verus! {

/// The fence language tag for a file extension; empty for an unknown one.
pub open spec fn lang_of(ext: Seq<char>) -> Seq<char> {
    if ext == "py"@ {
        "python"@
    } else if ext == "rs"@ {
        "rust"@
    } else if ext == "js"@ {
        "javascript"@
    } else if ext == "ts"@ {
        "typescript"@
    } else if ext == "java"@ {
        "java"@
    } else if ext == "c"@ {
        "c"@
    } else if ext == "cpp"@ {
        "cpp"@
    } else if ext == "sh"@ {
        "bash"@
    } else if ext == "rb"@ {
        "ruby"@
    } else if ext == "hs"@ {
        "haskell"@
    } else if ext == "html"@ {
        "html"@
    } else if ext == "css"@ {
        "css"@
    } else if ext == "xml"@ {
        "xml"@
    } else if ext == "json"@ {
        "json"@
    } else if ext == "yaml"@ || ext == "yml"@ {
        "yaml"@
    } else {
        Seq::empty()
    }
}

/// The language tag of the file at `path`, from its extension.
pub open spec fn lang_of_path(path: Seq<char>) -> Seq<char> {
    match extension(path) {
        Some(e) => lang_of(e),
        None => lang_of(Seq::empty()),
    }
}

/// The character of a decimal digit.
pub open spec fn digit(d: nat) -> char {
    if d == 0 {
        '0'
    } else if d == 1 {
        '1'
    } else if d == 2 {
        '2'
    } else if d == 3 {
        '3'
    } else if d == 4 {
        '4'
    } else if d == 5 {
        '5'
    } else if d == 6 {
        '6'
    } else if d == 7 {
        '7'
    } else if d == 8 {
        '8'
    } else {
        '9'
    }
}

/// `n` written in decimal, without leading zeros.
pub open spec fn decimal(n: nat) -> Seq<char>
    decreases n,
{
    if n < 10 {
        seq![digit(n)]
    } else {
        decimal(n / 10).push(digit(n % 10))
    }
}

/// Index of the first `\n` in `s`, or its length when it has none.
pub open spec fn line_end(s: Seq<char>) -> int
    decreases s.len(),
{
    if s.len() == 0 || s[0] == '\n' {
        0
    } else {
        1 + line_end(s.drop_first())
    }
}

/// The text of the first line of `s`, which ends at a `\n` at `e`: what
/// precedes it, without a `\r` that stands just before it.
pub open spec fn line_text(s: Seq<char>, e: int) -> Seq<char> {
    if 0 < e && s[e - 1] == '\r' {
        s.subrange(0, e - 1)
    } else {
        s.subrange(0, e)
    }
}

/// `s` with its lines numbered from `k` on, as std's `str::lines` splits
/// them: a line ends at a `\n` or a `\r\n`, which it does not keep, or at
/// the end of `s` (where a lone `\r` stays); a final line ending starts no
/// empty line. Each line becomes `<number>:<line>` and a `\n`.
pub open spec fn numbered_from(s: Seq<char>, k: nat) -> Seq<char>
    decreases s.len(),
{
    if s.len() == 0 {
        Seq::empty()
    } else {
        let e = line_end(s);
        if 0 <= e < s.len() {
            decimal(k) + seq![':'] + line_text(s, e) + seq!['\n'] + numbered_from(
                s.subrange(e + 1, s.len() as int),
                k + 1,
            )
        } else {
            decimal(k) + seq![':'] + s + seq!['\n']
        }
    }
}

/// `body` ending in a `\n`, unless it is empty.
pub open spec fn closed(body: Seq<char>) -> Seq<char> {
    if body.len() > 0 && body.last() != '\n' {
        body.push('\n')
    } else {
        body
    }
}

/// A fence line: three backticks, the tag `lang`, a `\n`.
pub open spec fn fence(lang: Seq<char>) -> Seq<char> {
    seq!['`', '`', '`'] + lang + seq!['\n']
}

/// The contents as rendered: numbered from 1 when `numbered`, else verbatim.
pub open spec fn body_of(contents: Seq<char>, numbered: bool) -> Seq<char> {
    if numbered {
        numbered_from(contents, 1)
    } else {
        contents
    }
}

/// The plain block of one file: its path, a `\n`, then its body.
pub open spec fn plain_block(path: Seq<char>, contents: Seq<char>, numbered: bool) -> Seq<char> {
    path + seq!['\n'] + body_of(contents, numbered)
}

/// The markdown block of one file: its path and a `\n`, an opening fence
/// tagged with the file's language, the body, and a closing fence on a line
/// of its own.
pub open spec fn markdown_block(path: Seq<char>, contents: Seq<char>, numbered: bool) -> Seq<char> {
    path + seq!['\n'] + fence(lang_of_path(path)) + closed(body_of(contents, numbered)) + fence(
        Seq::empty(),
    )
}

/// The block of one file, in markdown or plain form.
pub open spec fn block(path: Seq<char>, contents: Seq<char>, numbered: bool, markdown: bool) -> Seq<char> {
    if markdown {
        markdown_block(path, contents, numbered)
    } else {
        plain_block(path, contents, numbered)
    }
}

/// Whether `a` and `b` hold the same characters.
fn str_eq(a: &str, b: &str) -> (r: bool)
    ensures
        r == (a@ == b@),
{
    let v = chars_of(a);
    assert(v@.subrange(0, v@.len() as int) =~= v@);
    range_eq_str(&v, 0, v.len(), b)
}

/// The language tag for the extension `ext`; empty when it is unknown.
pub fn ext_to_lang(ext: &str) -> (r: &'static str)
    ensures
        r@ == lang_of(ext@),
{
    if str_eq(ext, "py") {
        "python"
    } else if str_eq(ext, "rs") {
        "rust"
    } else if str_eq(ext, "js") {
        "javascript"
    } else if str_eq(ext, "ts") {
        "typescript"
    } else if str_eq(ext, "java") {
        "java"
    } else if str_eq(ext, "c") {
        "c"
    } else if str_eq(ext, "cpp") {
        "cpp"
    } else if str_eq(ext, "sh") {
        "bash"
    } else if str_eq(ext, "rb") {
        "ruby"
    } else if str_eq(ext, "hs") {
        "haskell"
    } else if str_eq(ext, "html") {
        "html"
    } else if str_eq(ext, "css") {
        "css"
    } else if str_eq(ext, "xml") {
        "xml"
    } else if str_eq(ext, "json") {
        "json"
    } else if str_eq(ext, "yaml") || str_eq(ext, "yml") {
        "yaml"
    } else {
        let e = "";
        proof {
            reveal_strlit("");
        }
        assert(e@ =~= Seq::<char>::empty());
        e
    }
}

/// Appends `n`, in decimal, to `out`.
fn push_decimal(out: &mut String, n: usize)
    ensures
        final(out)@ == old(out)@ + decimal(n as nat),
    decreases n,
{
    if n >= 10 {
        push_decimal(out, n / 10);
    }
    let d = n % 10;
    let c = if d == 0 {
        '0'
    } else if d == 1 {
        '1'
    } else if d == 2 {
        '2'
    } else if d == 3 {
        '3'
    } else if d == 4 {
        '4'
    } else if d == 5 {
        '5'
    } else if d == 6 {
        '6'
    } else if d == 7 {
        '7'
    } else if d == 8 {
        '8'
    } else {
        '9'
    };
    out.push(c);
    assert(final(out)@ =~= old(out)@ + decimal(n as nat));
}

pub(crate) proof fn lemma_line_end(s: Seq<char>, m: int)
    requires
        0 <= m <= s.len(),
        forall|j: int| 0 <= j < m ==> s[j] != '\n',
        m == s.len() || s[m] == '\n',
    ensures
        line_end(s) == m,
    decreases m,
{
    if m > 0 {
        lemma_line_end(s.drop_first(), m - 1);
    }
}

/// Rewrites `file_cont` so that each of its lines is prefixed with its
/// 1-based number and a colon.
pub fn line_numbers(file_cont: &mut String)
    ensures
        final(file_cont)@ == numbered_from(old(file_cont)@, 1),
{
    let v = chars_of(file_cont.as_str());
    let mut out = String::new();
    let mut start: usize = 0;
    let mut done: usize = 0;
    assert(v@.subrange(0, v@.len() as int) =~= v@);
    while start < v.len()
        invariant
            start <= v.len(),
            done <= start,
            out@ + numbered_from(v@.subrange(start as int, v@.len() as int), (done + 1) as nat)
                == numbered_from(v@, 1),
        decreases v.len() - start,
    {
        let ghost t = v@.subrange(start as int, v@.len() as int);
        let mut end: usize = start;
        while end < v.len() && v[end] != '\n'
            invariant
                start <= end <= v.len(),
                forall|j: int| start <= j < end ==> v@[j] != '\n',
            decreases v.len() - end,
        {
            end = end + 1;
        }
        proof {
            lemma_line_end(t, end - start);
        }
        let ghost before = out@;
        let k = done + 1;
        let text_end = if end < v.len() && end > start && v[end - 1] == '\r' {
            end - 1
        } else {
            end
        };
        push_decimal(&mut out, k);
        out.push(':');
        push_range(&mut out, &v, start, text_end);
        out.push('\n');
        assert(t.subrange(0, end - start) =~= v@.subrange(start as int, end as int));
        if end < v.len() {
            assert(line_text(t, end - start) =~= v@.subrange(start as int, text_end as int));
            assert(t.subrange(end - start + 1, t.len() as int) =~= v@.subrange(end + 1, v@.len() as int));
            assert(out@ =~= before + decimal(k as nat) + seq![':'] + line_text(t, end - start) + seq!['\n']);
            start = end + 1;
        } else {
            assert(t =~= v@.subrange(start as int, end as int));
            assert(out@ =~= before + decimal(k as nat) + seq![':'] + t + seq!['\n']);
            assert(v@.subrange(end as int, v@.len() as int) =~= Seq::<char>::empty());
            start = end;
        }
        done = k;
    }
    assert(v@.subrange(start as int, v@.len() as int) =~= Seq::<char>::empty());
    assert(out@ =~= numbered_from(v@, 1));
    *file_cont = out;
}

/// The language tag of the file at `path`.
fn path_lang(path: &str) -> (r: &'static str)
    ensures
        r@ == lang_of_path(path@),
{
    let v = chars_of(path);
    match extension_bounds(&v) {
        Some((a, b)) => {
            let ext = path.substring_char(a, b);
            ext_to_lang(ext)
        },
        None => {
            let none = "";
            proof {
                reveal_strlit("");
            }
            assert(none@ =~= Seq::<char>::empty());
            ext_to_lang(none)
        },
    }
}

/// Appends three backticks, `lang` and a `\n` to `cont`.
fn push_fence(cont: &mut String, lang: &str)
    ensures
        final(cont)@ == old(cont)@ + fence(lang@),
{
    cont.push('`');
    cont.push('`');
    cont.push('`');
    cont.append(lang);
    cont.push('\n');
    assert(final(cont)@ =~= old(cont)@ + fence(lang@));
}

/// Appends the plain block of the file at `path`, whose contents are
/// `file_cont`, to `cont`.
pub fn store_as_default(cont: &mut String, path: &str, file_cont: String, line_num: bool)
    ensures
        final(cont)@ == old(cont)@ + plain_block(path@, file_cont@, line_num),
{
    let mut body = file_cont;
    if line_num {
        line_numbers(&mut body);
    }
    cont.append(path);
    cont.push('\n');
    cont.append(body.as_str());
    assert(final(cont)@ =~= old(cont)@ + plain_block(path@, file_cont@, line_num));
}

/// Appends the markdown block of the file at `path`, whose contents are
/// `file_cont`, to `cont`.
pub fn store_as_markdown(cont: &mut String, path: &str, file_cont: String, line_num: bool)
    ensures
        final(cont)@ == old(cont)@ + markdown_block(path@, file_cont@, line_num),
{
    let lang = path_lang(path);
    let mut body = file_cont;
    if line_num {
        line_numbers(&mut body);
    }
    let bv = chars_of(body.as_str());
    cont.append(path);
    cont.push('\n');
    push_fence(cont, lang);
    cont.append(body.as_str());
    if bv.len() > 0 && bv[bv.len() - 1] != '\n' {
        cont.push('\n');
    }
    let none = "";
    proof {
        reveal_strlit("");
    }
    assert(none@ =~= Seq::<char>::empty());
    push_fence(cont, none);
    assert(final(cont)@ =~= old(cont)@ + markdown_block(path@, file_cont@, line_num));
}

/// Appends the block of the file at `path`, whose contents are `file_cont`,
/// to `cont`: in markdown form when `markdown`, else plain.
pub fn store_block(cont: &mut String, path: &str, file_cont: String, line_num: bool, markdown: bool)
    ensures
        final(cont)@ == old(cont)@ + block(path@, file_cont@, line_num, markdown),
{
    if markdown {
        store_as_markdown(cont, path, file_cont, line_num);
    } else {
        store_as_default(cont, path, file_cont, line_num);
    }
}

} // verus!
