//! Which log lines a miner lets through.
use crate::text::{
    contains_text, is_blank, is_blank_text, law_a_text_holds_its_middle, same_text,
};
use vstd::prelude::*;
use vstd::string::*;

verus! {

/// A verbosity word that the command line accepts.
pub open spec fn is_level(level: Seq<char>) -> bool {
    level == "trace"@ || level == "debug"@ || level == "info"@ || level == "warn"@ || level
        == "error"@
}

/// Whether `level` is a verbosity word that the command line accepts.
#[must_use]
pub fn known_level(level: &str) -> (known: bool)
    ensures
        known == is_level(level@),
{
    same_text(level, "trace") || same_text(level, "debug") || same_text(level, "info")
        || same_text(level, "warn") || same_text(level, "error")
}

/// Everything at `level`, the transport crates at `warn`.
pub open spec fn filter_text(level: Seq<char>) -> Seq<char> {
    level + ",tonic=warn"@ + ",tower=warn"@ + ",hyper=warn"@ + ",hyper_util=warn"@ + ",h2=warn"@
}

/// Build the default filter: everything at `level`, transport crates at `warn`.
///
/// The transport is chatty at `debug` and below, and its output buries the
/// per-job lines that a miner is normally run at `debug` to see.
#[must_use]
pub fn default_filter(level: &str) -> (filter: String)
    ensures
        filter@ == filter_text(level@),
{
    let mut filter: String = level.to_owned();
    filter.append(",tonic=warn");
    filter.append(",tower=warn");
    filter.append(",hyper=warn");
    filter.append(",hyper_util=warn");
    filter.append(",h2=warn");
    filter
}

/// A text in quotes, with its special characters escaped.
pub uninterp spec fn quoted(text: Seq<char>) -> Seq<char>;

/// Renders a text with the `Debug` of `str`. Claims only that the outcome is
/// determined by the text.
#[verifier::external_body]
fn quote(text: &str) -> (rendered: String)
    ensures
        rendered@ == quoted(text@),
{
    format!("{text:?}")
}

/// What is said of an unknown level, `shown` being the level in quotes.
pub open spec fn level_text(shown: Seq<char>) -> Seq<char> {
    "unknown --log-level "@ + shown + ": expected one of trace, debug, info, warn, error"@
}

/// Resolve the filter directives, `shown` being the level as an error shows it.
///
/// The environment wins over the level when it says anything: a miner is
/// started by the coordinator, which owns the argument vector. The level is
/// checked even then: a filter reads a word it does not know as the name of a
/// target, which would silence the miner completely.
pub fn resolve_directives_shown(level: &str, shown: &str, rust_log: Option<&str>) -> (directives:
    Result<String, String>)
    ensures
        match directives {
            Err(text) => !is_level(level@) && text@ == level_text(shown@),
            Ok(filter) => {
                &&& is_level(level@)
                &&& filter@ == match rust_log {
                    Some(s) => if is_blank_text(s@) {
                        filter_text(level@)
                    } else {
                        s@
                    },
                    None => filter_text(level@),
                }
            },
        },
{
    if !known_level(level) {
        let mut text: String = "unknown --log-level ".to_owned();
        text.append(shown);
        text.append(": expected one of trace, debug, info, warn, error");
        return Err(text);
    }
    match rust_log {
        Some(s) => if is_blank(s) {
            Ok(default_filter(level))
        } else {
            Ok(s.to_owned())
        },
        None => Ok(default_filter(level)),
    }
}

/// Resolve the filter directives to install.
pub fn resolve_directives(level: &str, rust_log: Option<&str>) -> (directives: Result<
    String,
    String,
>)
    ensures
        match directives {
            Err(text) => !is_level(level@) && text@ == level_text(quoted(level@)),
            Ok(filter) => {
                &&& is_level(level@)
                &&& filter@ == match rust_log {
                    Some(s) => if is_blank_text(s@) {
                        filter_text(level@)
                    } else {
                        s@
                    },
                    None => filter_text(level@),
                }
            },
        },
{
    let shown: String = quote(level);
    resolve_directives_shown(level, shown.as_str(), rust_log)
}

/// Exactly five words are levels. A filter starts with its level, whatever that
/// is, and silences each of the transport crates behind it.
pub proof fn law_levels_and_filters(level: Seq<char>)
    ensures
        is_level(level) <==> level == "trace"@ || level == "debug"@ || level == "info"@ || level
            == "warn"@ || level == "error"@,
        filter_text(level).take(level.len() as int) == level,
        filter_text(level) == level + filter_text(Seq::empty()),
        contains_text(filter_text(level), ",tonic=warn"@),
        contains_text(filter_text(level), ",tower=warn"@),
        contains_text(filter_text(level), ",hyper=warn"@),
        contains_text(filter_text(level), ",hyper_util=warn"@),
        contains_text(filter_text(level), ",h2=warn"@),
{
    let none = Seq::<char>::empty();
    let (a, b, c, d, e) = (
        ",tonic=warn"@,
        ",tower=warn"@,
        ",hyper=warn"@,
        ",hyper_util=warn"@,
        ",h2=warn"@,
    );
    let text = filter_text(level);
    assert(text.take(level.len() as int) =~= level);
    assert(text =~= level + filter_text(none));
    assert(text =~= level + a + (b + c + d + e));
    law_a_text_holds_its_middle(level, a, b + c + d + e, text);
    assert(text =~= (level + a) + b + (c + d + e));
    law_a_text_holds_its_middle(level + a, b, c + d + e, text);
    assert(text =~= (level + a + b) + c + (d + e));
    law_a_text_holds_its_middle(level + a + b, c, d + e, text);
    assert(text =~= (level + a + b + c) + d + e);
    law_a_text_holds_its_middle(level + a + b + c, d, e, text);
    assert(text =~= (level + a + b + c + d) + e + none);
    law_a_text_holds_its_middle(level + a + b + c + d, e, none, text);
}

} // verus!
