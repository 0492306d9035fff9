//! The include preprocessor. A shader source may contain directive lines,
//! `#insert "relative/path"`; preprocessing replaces each one with the
//! fully expanded contents of the referenced file, resolved relative to the
//! including file's directory, and hands every other line through trimmed,
//! one line break after each.
//!
//! The preprocessor works over a [`Vfs`] table of file states. When it
//! meets a path the table does not know, it stops and asks for it
//! ([`Outcome::NeedFile`]); the caller records that path's state and runs
//! it again. Expansion depth is capped by the number of known files plus
//! one, which no expansion without a directive cycle can exceed.

use vstd::prelude::*;
use crate::directive::{check_directive, directive_arg, is_directive, parse_directive_arg};
use crate::paths::{resolve, resolve_spec};
use crate::text::{split_lines, split_lines_spec, trim, trim_spec};
use crate::vfs::{FileData, FileView, Vfs};

verus! {

/// Why preprocessing failed. Every error ends the whole run; nothing is
/// retried and no partial output is handed back.
#[derive(Debug)]
pub enum PreprocessError {
    /// A file in the chain could not be read. The payload is the reason
    /// the read reported, or the path itself when the table records the
    /// file as absent.
    Io(String),
    /// A directive line with fewer than two double quotes. The payload is
    /// the trimmed line.
    InvalidIncludeSyntax(String),
    /// A well-formed directive naming a file that does not exist. The
    /// payload is the argument as written, not the resolved path.
    IncludeNotFound(String),
}

/// The mathematical shape of a [`PreprocessError`].
#[verifier::ext_equal]
pub enum ErrView {
    Io(Seq<char>),
    InvalidIncludeSyntax(Seq<char>),
    IncludeNotFound(Seq<char>),
}

impl View for PreprocessError {
    type V = ErrView;

    open spec fn view(&self) -> ErrView {
        match self {
            PreprocessError::Io(m) => ErrView::Io(m@),
            PreprocessError::InvalidIncludeSyntax(l) => ErrView::InvalidIncludeSyntax(l@),
            PreprocessError::IncludeNotFound(p) => ErrView::IncludeNotFound(p@),
        }
    }
}

/// The diagnostic text of an error.
pub open spec fn message_spec(e: ErrView) -> Seq<char> {
    match e {
        ErrView::Io(m) => "I/O error: "@ + m,
        ErrView::InvalidIncludeSyntax(l) => "Invalid include directive: "@ + l,
        ErrView::IncludeNotFound(p) => "Included file not found: "@ + p,
    }
}

impl PreprocessError {
    /// Renders the error as one diagnostic line.
    pub fn message(&self) -> (r: String)
        ensures
            r@ == message_spec(self@),
    {
        match self {
            PreprocessError::Io(m) => {
                let mut s = "I/O error: ".to_owned();
                s.append(m.as_str());
                s
            },
            PreprocessError::InvalidIncludeSyntax(l) => {
                let mut s = "Invalid include directive: ".to_owned();
                s.append(l.as_str());
                s
            },
            PreprocessError::IncludeNotFound(p) => {
                let mut s = "Included file not found: ".to_owned();
                s.append(p.as_str());
                s
            },
        }
    }
}

/// What one preprocessing run came to.
#[derive(Debug)]
pub enum Outcome {
    /// The flattened, include-free source.
    Done(String),
    /// Preprocessing failed; see [`PreprocessError`].
    Failed(PreprocessError),
    /// The table holds nothing for this path. Record its state and run the
    /// preprocessor again.
    NeedFile(String),
    /// Expansion nested more deeply than the table has files, which only a
    /// directive cycle can cause.
    DepthExceeded,
}

/// The mathematical shape of an [`Outcome`].
#[verifier::ext_equal]
pub enum OutcomeView {
    Done(Seq<char>),
    Failed(ErrView),
    NeedFile(Seq<char>),
    DepthExceeded,
}

impl View for Outcome {
    type V = OutcomeView;

    open spec fn view(&self) -> OutcomeView {
        match self {
            Outcome::Done(s) => OutcomeView::Done(s@),
            Outcome::Failed(e) => OutcomeView::Failed(e@),
            Outcome::NeedFile(p) => OutcomeView::NeedFile(p@),
            Outcome::DepthExceeded => OutcomeView::DepthExceeded,
        }
    }
}

/// What expanding the file at `path` comes to, reading from the file table
/// `fs`, with at most `fuel` nested file reads.
///
/// A path the table does not know asks for that file. A known path is
/// read: text is expanded line by line, while an absent or unreadable
/// file is an I/O failure (an absent file's own path stands as the reason,
/// since no read ever ran).
pub open spec fn expand(fs: Map<Seq<char>, FileView>, path: Seq<char>, fuel: nat) -> OutcomeView
    decreases fuel, 0int,
{
    if fuel == 0 {
        OutcomeView::DepthExceeded
    } else if !fs.dom().contains(path) {
        OutcomeView::NeedFile(path)
    } else {
        match fs[path] {
            FileView::Absent => OutcomeView::Failed(ErrView::Io(path)),
            FileView::Unreadable(m) => OutcomeView::Failed(ErrView::Io(m)),
            FileView::Text(t) => expand_lines(fs, split_lines_spec(t), path, (fuel - 1) as nat),
        }
    }
}

/// What expanding the given lines of the file at `cur` comes to.
///
/// Each line is trimmed. A line that does not start with the directive
/// keyword is handed through, one `'\n'` after it. A directive line with
/// fewer than two quotes is a syntax error carrying the trimmed line. A
/// well-formed directive resolves its argument against `cur`'s directory:
/// a file recorded absent is a not-found error carrying the argument as
/// written; an unknown path asks for that file; otherwise the whole
/// expansion of the referenced file is put in place of the directive line,
/// one more `'\n'` after it. The first failure anywhere wins.
pub open spec fn expand_lines(
    fs: Map<Seq<char>, FileView>,
    lines: Seq<Seq<char>>,
    cur: Seq<char>,
    fuel: nat,
) -> OutcomeView
    decreases fuel, lines.len() + 1,
{
    if lines.len() == 0 {
        OutcomeView::Done(Seq::empty())
    } else {
        let l = trim_spec(lines[0]);
        if !is_directive(l) {
            match expand_lines(fs, lines.drop_first(), cur, fuel) {
                OutcomeView::Done(rest) => OutcomeView::Done(l + seq!['\n'] + rest),
                o => o,
            }
        } else {
            match directive_arg(l) {
                None => OutcomeView::Failed(ErrView::InvalidIncludeSyntax(l)),
                Some(arg) => {
                    let full = resolve_spec(cur, arg);
                    if fs.dom().contains(full) && fs[full] is Absent {
                        OutcomeView::Failed(ErrView::IncludeNotFound(arg))
                    } else if !fs.dom().contains(full) {
                        OutcomeView::NeedFile(full)
                    } else {
                        match expand(fs, full, fuel) {
                            OutcomeView::Done(inc) => match expand_lines(
                                fs,
                                lines.drop_first(),
                                cur,
                                fuel,
                            ) {
                                OutcomeView::Done(rest) => OutcomeView::Done(
                                    inc + seq!['\n'] + rest,
                                ),
                                o => o,
                            },
                            o => o,
                        }
                    }
                },
            }
        }
    }
}

/// Expands the file at `path`, with at most `fuel` nested file reads.
fn expand_with_fuel(vfs: &Vfs, path: &str, fuel: u64) -> (o: Outcome)
    requires
        vfs.wf(),
    ensures
        o@ == expand(vfs@, path@, fuel as nat),
    decreases fuel, 0int,
{
    if fuel == 0 {
        return Outcome::DepthExceeded;
    }
    match vfs.lookup(path) {
        None => Outcome::NeedFile(path.to_owned()),
        Some(d) => match d {
            FileData::Absent => Outcome::Failed(PreprocessError::Io(path.to_owned())),
            FileData::Unreadable(m) => Outcome::Failed(PreprocessError::Io(m.clone())),
            FileData::Text(t) => {
                let lines = split_lines(t.as_str());
                expand_lines_with_fuel(vfs, &lines, path, fuel - 1)
            },
        },
    }
}

/// Expands the given lines of the file at `cur`.
fn expand_lines_with_fuel(vfs: &Vfs, lines: &Vec<String>, cur: &str, fuel: u64) -> (o: Outcome)
    requires
        vfs.wf(),
    ensures
        o@ == expand_lines(vfs@, lines.deep_view(), cur@, fuel as nat),
    decreases fuel, 1int,
{
    let ghost lv = lines.deep_view();
    let mut out = String::new();
    let n = lines.len();
    proof {
        assert(lv.skip(0) =~= lv);
        match expand_lines(vfs@, lv, cur@, fuel as nat) {
            OutcomeView::Done(rest) => {
                assert(out@ + rest =~= rest);
            },
            _ => {},
        }
    }
    let mut i: usize = 0;
    while i < n
        invariant
            vfs.wf(),
            lv == lines.deep_view(),
            n == lines@.len(),
            i <= n,
            expand_lines(vfs@, lv, cur@, fuel as nat) == (match expand_lines(
                vfs@,
                lv.skip(i as int),
                cur@,
                fuel as nat,
            ) {
                OutcomeView::Done(rest) => OutcomeView::Done(out@ + rest),
                o2 => o2,
            }),
        decreases n - i,
    {
        let line = trim(lines[i].as_str());
        proof {
            assert(lv.skip(i as int)[0] == lv[i as int]);
            assert(lv.skip(i as int).drop_first() =~= lv.skip(i + 1));
        }
        if !check_directive(line) {
            let ghost oldout = out@;
            out.append(line);
            out.append("\n");
            proof {
                reveal_strlit("\n");
                assert("\n"@ =~= seq!['\n']);
                match expand_lines(vfs@, lv.skip(i + 1), cur@, fuel as nat) {
                    OutcomeView::Done(rest) => {
                        assert(oldout + (line@ + seq!['\n'] + rest) =~= out@ + rest);
                    },
                    _ => {},
                }
            }
        } else {
            let arg_opt = parse_directive_arg(line);
            match arg_opt {
                None => {
                    return Outcome::Failed(
                        PreprocessError::InvalidIncludeSyntax(line.to_owned()),
                    );
                },
                Some(arg) => {
                    let full = resolve(cur, arg.as_str());
                    match vfs.lookup(full.as_str()) {
                        None => {
                            return Outcome::NeedFile(full);
                        },
                        Some(d) => {
                            if let FileData::Absent = d {
                                return Outcome::Failed(PreprocessError::IncludeNotFound(arg));
                            }
                            let sub = expand_with_fuel(vfs, full.as_str(), fuel);
                            match sub {
                                Outcome::Done(inc) => {
                                    let ghost oldout = out@;
                                    out.append(inc.as_str());
                                    out.append("\n");
                                    proof {
                                        reveal_strlit("\n");
                                        assert("\n"@ =~= seq!['\n']);
                                        match expand_lines(vfs@, lv.skip(i + 1), cur@, fuel as nat) {
                                            OutcomeView::Done(rest) => {
                                                assert(oldout + (inc@ + seq!['\n'] + rest) =~= out@
                                                    + rest);
                                            },
                                            _ => {},
                                        }
                                    }
                                },
                                other => {
                                    return other;
                                },
                            }
                        },
                    }
                },
            }
        }
        i = i + 1;
    }
    proof {
        assert(lv.skip(n as int) =~= Seq::<Seq<char>>::empty());
        assert(out@ + Seq::<char>::empty() =~= out@);
    }
    Outcome::Done(out)
}

/// Runs the include preprocessor on the file at `path`, reading from the
/// file states `vfs` records.
///
/// The result is exactly [`expand`] of the table, with one more unit of
/// fuel than the table has files: enough for every expansion that does not
/// cycle, so [`OutcomeView::DepthExceeded`] can only mean a directive
/// cycle.
pub fn preprocess(vfs: &Vfs, path: &str) -> (o: Outcome)
    requires
        vfs.wf(),
        vfs@.dom().len() < usize::MAX,
    ensures
        o@ == expand(vfs@, path@, vfs@.dom().len() + 1),
{
    let n = vfs.len();
    expand_with_fuel(vfs, path, (n as u64) + 1)
}

} // verus!
