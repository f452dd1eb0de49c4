//! Error formatting for logs.
//!
//! An error may carry a chain of causes and optionally a backtrace. What
//! ends up in the log is computed here: either one message per cause, or a
//! single line with the causes joined by semicolons, plus the backtrace as
//! its own message when debug logging is enabled and the format wants one.
//! The embedding hands the rendered cause texts in and writes the returned
//! lines out.

use vstd::prelude::*;

use vstd::string::StringExecFns;

verus! {

/// How to format errors in logs.
#[derive(Copy, Clone, Debug, PartialEq, Eq, Structural)]
#[non_exhaustive]
pub enum ErrorLogFormat {
    /// A multi-cause error spans multiple log messages.
    ///
    /// If present, the trace is printed on debug level.
    MultiLine,
    /// The error is formatted on a single line; the causes are separated by
    /// semicolons.
    ///
    /// If present, the trace is printed on debug level.
    SingleLine,
    /// Like [`SingleLine`][ErrorLogFormat::SingleLine], but without the
    /// backtrace.
    SingleLineWithoutBacktrace,
}

/// The causes joined into one line, separated by "; ".
pub open spec fn joined_causes(causes: Seq<Seq<char>>) -> Seq<char>
    decreases causes.len(),
{
    if causes.len() == 0 {
        Seq::empty()
    } else if causes.len() == 1 {
        causes[0]
    } else {
        joined_causes(causes.drop_last()) + seq![';', ' '] + causes.last()
    }
}

/// The views of a list of rendered texts.
pub open spec fn text_views(ss: Seq<String>) -> Seq<Seq<char>> {
    ss.map_values(|s: String| s@)
}

/// What one error produces in the log: one message per cause, or a single
/// joined line, then the backtrace as its own message when debug logging is
/// enabled, the format wants one and there is one.
pub open spec fn log_lines_model(
    causes: Seq<Seq<char>>,
    format: ErrorLogFormat,
    backtrace: Seq<char>,
    debug_enabled: bool,
) -> Seq<Seq<char>> {
    let base = if format is MultiLine {
        causes
    } else {
        seq![joined_causes(causes)]
    };
    if debug_enabled && !(format is SingleLineWithoutBacktrace) && backtrace.len() > 0 {
        base.push(backtrace)
    } else {
        base
    }
}

/// Joins the rendered causes with "; ".
pub fn join_causes(causes: &Vec<String>) -> (r: String)
    ensures
        r@ == joined_causes(text_views(causes@)),
{
    let mut r = String::new();
    let mut i: usize = 0;
    proof {
        assert(text_views(causes@.take(0)) =~= Seq::<Seq<char>>::empty());
    }
    while i < causes.len()
        invariant
            i <= causes@.len(),
            r@ == joined_causes(text_views(causes@.take(i as int))),
        decreases causes@.len() - i,
    {
        if i > 0 {
            r.append("; ");
            proof {
                reveal_strlit("; ");
                assert("; "@ =~= seq![';', ' ']);
            }
        }
        r.append(causes[i].as_str());
        proof {
            let upto = text_views(causes@.take(i as int + 1));
            assert(upto.drop_last() =~= text_views(causes@.take(i as int)));
            assert(upto.last() == causes@[i as int]@);
            if i == 0 {
                assert(r@ =~= joined_causes(upto));
            } else {
                assert(r@ =~= joined_causes(upto));
            }
        }
        i += 1;
    }
    proof {
        assert(causes@.take(causes@.len() as int) =~= causes@);
    }
    r
}

/// The log messages for one error with all its causes, for the given
/// format and debug setting.
pub fn error_log_lines(
    causes: &Vec<String>,
    format: ErrorLogFormat,
    backtrace: &String,
    debug_enabled: bool,
) -> (lines: Vec<String>)
    ensures
        text_views(lines@) == log_lines_model(text_views(causes@), format, backtrace@,
            debug_enabled),
{
    let mut lines: Vec<String> = Vec::new();
    match format {
        ErrorLogFormat::MultiLine => {
            let mut i: usize = 0;
            proof {
                assert(text_views(lines@) =~~= text_views(causes@).take(0));
            }
            while i < causes.len()
                invariant
                    i <= causes@.len(),
                    text_views(lines@) == text_views(causes@).take(i as int),
                decreases causes@.len() - i,
            {
                let c = causes[i].clone();
                let ghost lines0 = lines@;
                proof {
                    assert(c@ == causes@[i as int]@);
                }
                lines.push(c);
                proof {
                    assert(text_views(lines0).len() == lines0.len());
                    assert(text_views(lines0) == text_views(causes@).take(i as int));
                    assert(lines0.len() == i as int);
                    assert(lines@ == lines0.push(c));
                    assert(lines@.len() == i as int + 1);
                    assert forall|k: int| 0 <= k < i as int + 1 implies text_views(lines@)[k]
                        == text_views(causes@).take(i as int + 1)[k] by {
                        assert(text_views(lines@)[k] == lines@[k]@);
                        if k < i as int {
                            assert(lines@[k] == lines0[k]);
                            assert(text_views(lines0)[k] == lines0[k]@);
                            assert(text_views(lines0)[k] == text_views(causes@).take(i as int)[k]);
                        } else {
                            assert(lines@[k] == c);
                        }
                    }
                    assert(text_views(lines@) =~= text_views(causes@).take(i as int + 1));
                }
                i += 1;
            }
            proof {
                assert(text_views(causes@).take(causes@.len() as int) =~~= text_views(causes@));
            }
        },
        _ => {
            lines.push(join_causes(causes));
            proof {
                assert(text_views(lines@) =~~= seq![joined_causes(text_views(causes@))]);
            }
        },
    }
    let wants_backtrace = match format {
        ErrorLogFormat::SingleLineWithoutBacktrace => false,
        _ => true,
    };
    let ghost base = text_views(lines@);
    if debug_enabled && wants_backtrace && backtrace.as_str().unicode_len() > 0 {
        lines.push(backtrace.clone());
        proof {
            assert(text_views(lines@) =~~= base.push(backtrace@));
        }
    }
    lines
}

} // verus!
