//! What an execution's errors contribute to the error-reporting scope.
use vstd::prelude::*;
use vstd::string::*;
use crate::redact::{decimal, decimal_text};

verus! {

/// One step of a response path: a list index or a field name.
#[derive(Debug, Clone)]
pub enum PathSegment {
    Index(usize),
    Field(String),
}

/// An error of a response: its message and the path of the field it
/// belongs to (empty when it belongs to no field).
#[derive(Debug, Clone)]
pub struct ServerError {
    pub message: String,
    pub path: Vec<PathSegment>,
}

/// The record attached to the error-reporting scope for a failed execution.
#[derive(Debug, Clone)]
pub struct ErrorSummary {
    /// Dot-joined paths of the errors that have a path, in order.
    pub paths: Vec<String>,
    /// The messages of those same errors, in the same order.
    pub errors: Vec<String>,
    /// The message reported at error severity.
    pub message: String,
}

/// Text of a path segment: an index in decimal, a field by its name.
pub open spec fn segment_text(s: PathSegment) -> Seq<char> {
    match s {
        PathSegment::Index(i) => decimal(i as nat),
        PathSegment::Field(name) => name@,
    }
}

/// The segments of `p`, joined by dots.
pub open spec fn path_text(p: Seq<PathSegment>) -> Seq<char>
    decreases p.len(),
{
    if p.len() == 0 {
        Seq::empty()
    } else if p.len() == 1 {
        segment_text(p[0])
    } else {
        path_text(p.drop_last()) + "."@ + segment_text(p.last())
    }
}

/// The errors that have a non-empty path, in order.
pub open spec fn errors_with_path(errs: Seq<ServerError>) -> Seq<ServerError>
    decreases errs.len(),
{
    if errs.len() == 0 {
        Seq::empty()
    } else if errs.last().path.len() > 0 {
        errors_with_path(errs.drop_last()).push(errs.last())
    } else {
        errors_with_path(errs.drop_last())
    }
}

/// Renders a response path as dot-joined text.
pub fn render_path(path: &Vec<PathSegment>) -> (r: String)
    ensures
        r@ == path_text(path@),
{
    let mut out = String::new();
    let mut i: usize = 0;
    while i < path.len()
        invariant
            i <= path.len(),
            out@ == path_text(path@.subrange(0, i as int)),
        decreases path.len() - i,
    {
        proof {
            assert(path@.subrange(0, i + 1).drop_last() =~= path@.subrange(0, i as int));
        }
        if i > 0 {
            out.append(".");
        }
        match &path[i] {
            PathSegment::Index(idx) => {
                let digits = decimal_text(*idx);
                out.append(digits.as_str());
            },
            PathSegment::Field(name) => {
                out.append(name.as_str());
            },
        }
        i += 1;
    }
    proof {
        assert(path@.subrange(0, path.len() as int) =~= path@);
    }
    out
}

/// Summarises the errors of an executed response for the error-reporting
/// scope: `None` when there are none; otherwise the path and message of
/// every error that has a path, and the first error's message.
pub fn summarize_errors(errs: &Vec<ServerError>) -> (r: Option<ErrorSummary>)
    ensures
        errs.len() == 0 <==> r is None,
        r matches Some(s) ==> {
            let kept = errors_with_path(errs@);
            &&& s.paths.len() == kept.len()
            &&& s.errors.len() == kept.len()
            &&& forall|i: int|
                0 <= i < kept.len() ==> #[trigger] s.paths@[i]@ == path_text(kept[i].path@)
                    && s.errors@[i]@ == kept[i].message@
            &&& s.message@ == errs@[0].message@
        },
{
    if errs.len() == 0 {
        return None;
    }
    let mut paths: Vec<String> = Vec::new();
    let mut messages: Vec<String> = Vec::new();
    let mut i: usize = 0;
    while i < errs.len()
        invariant
            i <= errs.len(),
            paths.len() == errors_with_path(errs@.subrange(0, i as int)).len(),
            messages.len() == paths.len(),
            forall|j: int|
                0 <= j < paths.len() ==> #[trigger] paths@[j]@ == path_text(
                    errors_with_path(errs@.subrange(0, i as int))[j].path@,
                ) && messages@[j]@ == errors_with_path(errs@.subrange(0, i as int))[j].message@,
        decreases errs.len() - i,
    {
        let ghost prev = errors_with_path(errs@.subrange(0, i as int));
        let ghost next = errors_with_path(errs@.subrange(0, i + 1));
        proof {
            assert(errs@.subrange(0, i + 1).drop_last() =~= errs@.subrange(0, i as int));
            assert(errs@.subrange(0, i + 1).last() == errs@[i as int]);
        }
        let err = &errs[i];
        if err.path.len() > 0 {
            let p = render_path(&err.path);
            paths.push(p);
            messages.push(err.message.clone());
            proof {
                assert(next == prev.push(errs@[i as int]));
                assert forall|j: int| 0 <= j < paths.len() implies #[trigger] paths@[j]@
                    == path_text(next[j].path@) && messages@[j]@ == next[j].message@ by {
                    if j < prev.len() {
                        assert(next[j] == prev[j]);
                    }
                }
            }
        } else {
            proof {
                assert(next == prev);
            }
        }
        i += 1;
    }
    proof {
        assert(errs@.subrange(0, errs.len() as int) =~= errs@);
    }
    Some(ErrorSummary { paths, errors: messages, message: errs[0].message.clone() })
}


/// `s` padded on the left with `'0'` up to `width` characters; longer
/// text is kept whole.
pub open spec fn zero_padded(s: Seq<char>, width: nat) -> Seq<char> {
    if s.len() >= width {
        s
    } else {
        Seq::new((width - s.len()) as nat, |_i: int| '0') + s
    }
}

/// Width of a trace or span identifier as it is put in the error-reporting
/// scope.
pub const ID_WIDTH: usize = 32;

/// Pads a hexadecimal trace or span identifier with leading zeros to
/// `ID_WIDTH` characters, so that both kinds of id read alike in a report.
pub fn pad_id(id: &str) -> (r: String)
    ensures
        r@ == zero_padded(id@, ID_WIDTH as nat),
{
    let n = id.unicode_len();
    let mut out = String::new();
    if n < ID_WIDTH {
        let mut i: usize = 0;
        while i < ID_WIDTH - n
            invariant
                n == id@.len(),
                n < ID_WIDTH,
                i <= ID_WIDTH - n,
                out@ == Seq::new(i as nat, |_i: int| '0'),
            decreases ID_WIDTH - n - i,
        {
            out.append("0");
            proof {
                reveal_strlit("0");
                assert(out@ =~= Seq::new((i + 1) as nat, |_i: int| '0'));
            }
            i += 1;
        }
    }
    out.append(id);
    proof {
        if n >= ID_WIDTH {
            assert(out@ =~= id@);
        }
    }
    out
}

} // verus!
