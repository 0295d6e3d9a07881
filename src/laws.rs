//! Properties that hold of the library as a whole, stated over the spec
//! functions that its contracts use.
use vstd::prelude::*;

use crate::config::AppConfig;
use crate::paths::{is_hidden, last_component};
use crate::policy::{verdict, PathKind, Verdict};
use crate::render::{
    block, body_of, closed, decimal, digit, fence, lang_of_path, lemma_line_end, line_end, line_text,
    markdown_block, numbered_from,
};
use crate::policy::ignored;
use crate::walker::{child_depth, enters, record, stacked, DirId};

verus! {

/// A path that is not hidden is never skipped as hidden, whatever the
/// configuration, its kind or the ignore test say.
pub proof fn lemma_visible_never_skipped_as_hidden(
    config: AppConfig,
    path: Seq<char>,
    kind: PathKind,
    ignore_matched: bool,
)
    requires
        !is_hidden(path),
    ensures
        verdict(config, path, kind, ignore_matched) != Verdict::SkipHidden,
{
}

/// A path whose final component is `.` or `..` is not hidden.
pub proof fn lemma_dot_and_dotdot_not_hidden(path: Seq<char>)
    requires
        last_component(path) == seq!['.'] || last_component(path) == seq!['.', '.'],
    ensures
        !is_hidden(path),
{
}

/// A path whose final component starts with `.` and has more after it, other
/// than `..`, is hidden.
pub proof fn lemma_dot_names_hidden(path: Seq<char>)
    requires
        last_component(path).len() >= 2,
        last_component(path)[0] == '.',
        last_component(path) != seq!['.', '.'],
    ensures
        is_hidden(path),
{
    assert(last_component(path).len() != seq!['.'].len());
}

/// Once a directory has been met, in whatever later state of the visited set
/// (which only grows), meeting the same identity again never expands it: its
/// files reach the output at most once, however many paths lead to it.
pub proof fn lemma_directory_expanded_once(
    visited: Set<DirId>,
    later: Set<DirId>,
    max_depth: u64,
    depth: u64,
    key: DirId,
)
    requires
        record(visited, Some(key)).subset_of(later),
    ensures
        !enters(later, max_depth, depth, Some(key)),
{
    assert(later.contains(key));
}

/// A markdown block holds, after its path line, an opening fence tagged with
/// the file's language, and ends with a closing fence on a line of its own.
pub proof fn lemma_markdown_fences(path: Seq<char>, contents: Seq<char>, numbered: bool)
    ensures
        ({
            let b = markdown_block(path, contents, numbered);
            let open = fence(lang_of_path(path));
            let start = path.len() as int + 1;
            &&& b.subrange(0, start) == path.push('\n')
            &&& b.subrange(start, start + open.len() as int) == open
            &&& b.subrange(b.len() - 4, b.len() as int) == fence(Seq::empty())
            &&& b[b.len() - 5] == '\n'
        }),
{
    let body = closed(body_of(contents, numbered));
    let b = markdown_block(path, contents, numbered);
    let open = fence(lang_of_path(path));
    let start = path.len() as int + 1;
    assert(b == path.push('\n') + open + body + fence(Seq::empty())) by {
        assert(path + seq!['\n'] =~= path.push('\n'));
    }
    assert(b.subrange(0, start) =~= path.push('\n'));
    assert(b.subrange(start, start + open.len() as int) =~= open);
    assert(b.subrange(b.len() - 4, b.len() as int) =~= fence(Seq::empty()));
    if body.len() > 0 {
        assert(b[b.len() - 5] == body.last());
    } else {
        assert(b[b.len() - 5] == open.last());
    }
}

/// The lines of `s`, as std's `str::lines` gives them: a line ends at a `\n`
/// or a `\r\n`, which it does not keep, or at the end of `s`; a final line
/// ending starts no empty line.
pub open spec fn lines_of(s: Seq<char>) -> Seq<Seq<char>>
    decreases s.len(),
{
    if s.len() == 0 {
        Seq::empty()
    } else {
        let e = line_end(s);
        if 0 <= e < s.len() {
            seq![line_text(s, e)] + lines_of(s.subrange(e + 1, s.len() as int))
        } else {
            seq![s]
        }
    }
}

/// Each of `lines` prefixed with its number, counting from `k`, and ended with `\n`.
pub open spec fn join_numbered(lines: Seq<Seq<char>>, k: nat) -> Seq<char>
    decreases lines.len(),
{
    if lines.len() == 0 {
        Seq::empty()
    } else {
        decimal(k) + seq![':'] + lines[0] + seq!['\n'] + join_numbered(lines.drop_first(), k + 1)
    }
}

/// Each of `lines` with its number, counting from `k`, and a `:` before it.
pub open spec fn prefixed(lines: Seq<Seq<char>>, k: nat) -> Seq<Seq<char>> {
    Seq::new(lines.len(), |i: int| decimal((k + i) as nat) + seq![':'] + lines[i])
}

/// `t` ends in a `\r`.
pub open spec fn ends_in_cr(t: Seq<char>) -> bool {
    t.len() > 0 && t.last() == '\r'
}

proof fn lemma_line_end_facts(s: Seq<char>)
    ensures
        0 <= line_end(s) <= s.len(),
        forall|j: int| 0 <= j < line_end(s) ==> s[j] != '\n',
        line_end(s) < s.len() ==> s[line_end(s)] == '\n',
    decreases s.len(),
{
    if s.len() > 0 && s[0] != '\n' {
        lemma_line_end_facts(s.drop_first());
        assert forall|j: int| 0 <= j < line_end(s) implies s[j] != '\n' by {
            if j > 0 {
                assert(s[j] == s.drop_first()[j - 1]);
            }
        }
    }
}

proof fn lemma_decimal_no_newline(n: nat)
    ensures
        forall|j: int| 0 <= j < decimal(n).len() ==> decimal(n)[j] != '\n',
    decreases n,
{
    if n >= 10 {
        lemma_decimal_no_newline(n / 10);
        let d = decimal(n / 10);
        assert(digit(n % 10) != '\n');
        assert forall|j: int| 0 <= j < decimal(n).len() implies decimal(n)[j] != '\n' by {
            if j < d.len() {
                assert(decimal(n)[j] == d[j]);
            }
        }
    } else {
        assert(digit(n) != '\n');
    }
}

proof fn lemma_lines_have_no_newline(s: Seq<char>)
    ensures
        forall|i: int, j: int|
            0 <= i < lines_of(s).len() && 0 <= j < lines_of(s)[i].len() ==> #[trigger] lines_of(
                s,
            )[i][j] != '\n',
    decreases s.len(),
{
    if s.len() > 0 {
        lemma_line_end_facts(s);
        let e = line_end(s);
        if e < s.len() {
            let rest = s.subrange(e + 1, s.len() as int);
            lemma_lines_have_no_newline(rest);
            assert forall|i: int, j: int|
                0 <= i < lines_of(s).len() && 0 <= j < lines_of(s)[i].len() implies #[trigger] lines_of(
                s,
            )[i][j] != '\n' by {
                if i > 0 {
                    assert(lines_of(s)[i] == lines_of(rest)[i - 1]);
                } else {
                    assert(lines_of(s)[0][j] == s[j]);
                }
            }
        } else {
            assert(lines_of(s) =~= seq![s]);
        }
    }
}

proof fn lemma_numbered_is_join(s: Seq<char>, k: nat)
    ensures
        numbered_from(s, k) == join_numbered(lines_of(s), k),
    decreases s.len(),
{
    if s.len() > 0 {
        lemma_line_end_facts(s);
        let e = line_end(s);
        let ls = lines_of(s);
        if e < s.len() {
            let rest = s.subrange(e + 1, s.len() as int);
            lemma_numbered_is_join(rest, k + 1);
            assert(ls.drop_first() =~= lines_of(rest));
            assert(ls[0] == line_text(s, e));
        } else {
            assert(ls =~= seq![s]);
            assert(ls.drop_first() =~= Seq::<Seq<char>>::empty());
            assert(join_numbered(ls.drop_first(), k + 1) == Seq::<char>::empty());
            assert(join_numbered(ls, k) =~= decimal(k) + seq![':'] + s + seq!['\n']);
        }
    }
}

proof fn lemma_lines_of_join(ls: Seq<Seq<char>>, k: nat)
    requires
        forall|i: int, j: int| 0 <= i < ls.len() && 0 <= j < ls[i].len() ==> #[trigger] ls[i][j] != '\n',
        forall|i: int| 0 <= i < ls.len() ==> !ends_in_cr(#[trigger] ls[i]),
    ensures
        lines_of(join_numbered(ls, k)) == prefixed(ls, k),
    decreases ls.len(),
{
    if ls.len() == 0 {
        assert(prefixed(ls, k) =~= Seq::<Seq<char>>::empty());
    } else {
        let x = decimal(k) + seq![':'] + ls[0];
        let rest = ls.drop_first();
        let jr = join_numbered(rest, k + 1);
        let s = join_numbered(ls, k);
        assert(s =~= x + seq!['\n'] + jr);
        lemma_decimal_no_newline(k);
        assert forall|j: int| 0 <= j < x.len() implies x[j] != '\n' by {
            if j >= decimal(k).len() + 1 {
                assert(x[j] == ls[0][j - decimal(k).len() - 1]);
            }
        }
        assert(s[x.len() as int] == '\n');
        lemma_line_end(s, x.len() as int);
        if ls[0].len() > 0 {
            assert(x.last() == ls[0].last());
        }
        assert(s[x.len() - 1] != '\r');
        assert(line_text(s, x.len() as int) =~= x);
        assert(s.subrange(x.len() as int + 1, s.len() as int) =~= jr);
        assert forall|i: int, j: int| 0 <= i < rest.len() && 0 <= j < rest[i].len() implies #[trigger] rest[i][j]
            != '\n' by {
            assert(rest[i] == ls[i + 1]);
        }
        assert forall|i: int| 0 <= i < rest.len() implies !ends_in_cr(#[trigger] rest[i]) by {
            assert(rest[i] == ls[i + 1]);
        }
        lemma_lines_of_join(rest, k + 1);
        assert(lines_of(s) =~= seq![x] + prefixed(rest, k + 1));
        assert(prefixed(ls, k) =~= seq![x] + prefixed(rest, k + 1)) by {
            assert forall|i: int| 1 <= i < ls.len() implies prefixed(ls, k)[i] == prefixed(rest, k + 1)[i - 1] by {
                assert((k + i) as nat == ((k + 1) + (i - 1)) as nat);
            }
        }
    }
}

/// Line numbering gives each line of the contents, as std's `str::lines`
/// splits them, its 1-based number (counting from `k`) and a `:`, and ends it
/// with `\n`. Read back as lines, the numbered text has as many lines as the
/// contents, in the same order, each the number, a `:` and the line of the
/// contents at that place, kept whole. This needs that no line of the
/// contents end in a `\r` (a lone one at the very end, or a `\r\r\n`):
/// numbering would turn that `\r` into part of a `\r\n` ending.
pub proof fn lemma_numbering_prefixes_lines(s: Seq<char>, k: nat)
    requires
        forall|i: int| 0 <= i < lines_of(s).len() ==> !ends_in_cr(#[trigger] lines_of(s)[i]),
    ensures
        numbered_from(s, k) == join_numbered(lines_of(s), k),
        lines_of(numbered_from(s, k)) == prefixed(lines_of(s), k),
{
    lemma_numbered_is_join(s, k);
    lemma_lines_have_no_newline(s);
    lemma_lines_of_join(lines_of(s), k);
}

/// The output after rendering `files` (each a path and its contents) one
/// after another into `out`, as successive calls of `Walker::add_file` do.
pub open spec fn after_adds(
    out: Seq<char>,
    files: Seq<(Seq<char>, Seq<char>)>,
    numbered: bool,
    markdown: bool,
) -> Seq<char>
    decreases files.len(),
{
    if files.len() == 0 {
        out
    } else {
        after_adds(
            out + block(files[0].0, files[0].1, numbered, markdown),
            files.drop_first(),
            numbered,
            markdown,
        )
    }
}

/// The blocks of `files`, in order.
pub open spec fn blocks_of(files: Seq<(Seq<char>, Seq<char>)>, numbered: bool, markdown: bool) -> Seq<char>
    decreases files.len(),
{
    if files.len() == 0 {
        Seq::empty()
    } else {
        block(files[0].0, files[0].1, numbered, markdown) + blocks_of(files.drop_first(), numbered, markdown)
    }
}

/// Rendering files one after another leaves the output so far followed by
/// their blocks, in order and each whole: the output depends on nothing but
/// the files met and their order, so a second run over an unchanged tree
/// gives the same bytes.
pub proof fn lemma_output_is_blocks_in_order(
    out: Seq<char>,
    files: Seq<(Seq<char>, Seq<char>)>,
    numbered: bool,
    markdown: bool,
)
    ensures
        after_adds(out, files, numbered, markdown) == out + blocks_of(files, numbered, markdown),
    decreases files.len(),
{
    if files.len() > 0 {
        let b = block(files[0].0, files[0].1, numbered, markdown);
        lemma_output_is_blocks_in_order(out + b, files.drop_first(), numbered, markdown);
        assert(out + b + blocks_of(files.drop_first(), numbered, markdown) =~= out + (b + blocks_of(
            files.drop_first(),
            numbered,
            markdown,
        )));
    } else {
        assert(out + Seq::<char>::empty() =~= out);
    }
}

/// What the filesystem says of one path when a run visits it.
pub struct Answer {
    /// Whether the path exists and can be read.
    pub exists: bool,
    /// The path the run works with (its canonical form for a relative one).
    pub resolved: Seq<char>,
    /// What the path is on disk.
    pub kind: PathKind,
    /// A file's contents, `None` when they cannot be read.
    pub contents: Option<Seq<char>>,
    /// A directory's identity, `None` when its metadata cannot be read.
    pub id: Option<DirId>,
    /// A directory's children, `None` when it cannot be listed.
    pub children: Option<Seq<Seq<char>>>,
}

/// The state of a run: the entries still to visit (the last one next), the
/// directories expanded, and the output so far.
pub struct RunState {
    pub pending: Seq<(Seq<char>, u64)>,
    pub visited: Set<DirId>,
    pub output: Seq<char>,
}

/// `paths`, each at depth `depth`, last path first.
pub open spec fn stacked_paths(paths: Seq<Seq<char>>, depth: u64) -> Seq<(Seq<char>, u64)> {
    Seq::new(paths.len(), |i: int| (paths[paths.len() - 1 - i], depth))
}

/// The state a run starts in: the configured paths pending at depth 0.
pub open spec fn start_state(config: AppConfig) -> RunState {
    RunState {
        pending: stacked_paths(config.paths@.map_values(|p: String| p@), 0),
        visited: Set::empty(),
        output: Seq::empty(),
    }
}

/// One step of a run over the filesystem `fs`: the next entry is taken, and
/// the walker skips it, renders it or expands it as its methods' contracts
/// say, with `fs`'s answer for that entry.
pub open spec fn run_step(config: AppConfig, st: RunState, fs: spec_fn(Seq<char>) -> Answer) -> RunState {
    if st.pending.len() == 0 {
        st
    } else {
        let (path, depth) = st.pending.last();
        let rest = st.pending.drop_last();
        let a = fs(path);
        if !a.exists {
            RunState { pending: rest, ..st }
        } else {
            match verdict(config, a.resolved, a.kind, ignored(config.ignore@, a.resolved)) {
                Verdict::Render => RunState {
                    pending: rest,
                    output: match a.contents {
                        Some(c) => st.output + block(a.resolved, c, config.line_numbers, config.markdown),
                        None => st.output,
                    },
                    ..st
                },
                Verdict::Expand => RunState {
                    pending: if enters(st.visited, config.depth, depth, a.id) && a.children is Some {
                        rest + stacked_paths(a.children->0, child_depth(depth))
                    } else {
                        rest
                    },
                    visited: record(st.visited, a.id),
                    ..st
                },
                _ => RunState { pending: rest, ..st },
            }
        }
    }
}

/// The state after `steps` steps of a run over `fs`.
pub open spec fn run_from(config: AppConfig, st: RunState, fs: spec_fn(Seq<char>) -> Answer, steps: nat) -> RunState
    decreases steps,
{
    if steps == 0 {
        st
    } else {
        run_from(config, run_step(config, st, fs), fs, (steps - 1) as nat)
    }
}

/// Two whole runs with one configuration over a filesystem that gives the
/// same answer for every path (one that has not changed between them) go
/// through the same states and write byte-identical output.
pub proof fn lemma_runs_repeat(
    config: AppConfig,
    fs1: spec_fn(Seq<char>) -> Answer,
    fs2: spec_fn(Seq<char>) -> Answer,
    steps: nat,
)
    requires
        forall|p: Seq<char>| #[trigger] fs1(p) == fs2(p),
    ensures
        run_from(config, start_state(config), fs1, steps) == run_from(config, start_state(config), fs2, steps),
        run_from(config, start_state(config), fs1, steps).output == run_from(
            config,
            start_state(config),
            fs2,
            steps,
        ).output,
{
    assert(fs1 =~= fs2);
}

/// The run model queues what the walker queues: its start state holds the
/// entries `Walker::new` ensures, and a directory's children are stacked as
/// `Walker::add_children` ensures.
pub proof fn lemma_model_queues_as_walker(config: AppConfig, children: Seq<String>, depth: u64)
    ensures
        start_state(config).pending == stacked(config.paths@, 0),
        stacked_paths(children.map_values(|p: String| p@), depth) == stacked(children, depth),
{
    assert(start_state(config).pending =~= stacked(config.paths@, 0));
    assert(stacked_paths(children.map_values(|p: String| p@), depth) =~= stacked(children, depth));
}

} // verus!
