//! The decisions of `--watch` mode: a new frame is shown only when the
//! report changed since the last one shown, and what that frame holds.
use vstd::prelude::*;
use crate::snapshot::opt_view;
use crate::strings::{owned, push_str, str_eq};

verus! {

/// Whether a report differs from the last one shown (`None`: nothing shown yet).
pub open spec fn spec_changed(last: Option<Seq<char>>, output: Seq<char>) -> bool {
    last != Some(output)
}

/// Whether `--watch` shows `output` after having last shown `last`.
pub fn output_changed(last: &Option<String>, output: &str) -> (res: bool)
    ensures
        res == spec_changed(opt_view(*last), output@),
{
    match last {
        Some(l) => !str_eq(l.as_str(), output),
        None => true,
    }
}

/// What `--watch` writes for a changed report: the JSON document on a line of
/// its own, or a cleared screen, a header with the time, a blank line and
/// the text report.
pub open spec fn spec_frame(output: Seq<char>, as_json: bool, timestamp: Seq<char>) -> Seq<char> {
    if as_json {
        output + "\n"@
    } else {
        "\x1b[2J\x1b[H"@ + "whatcable-linux --watch \u{b7} "@ + timestamp + "\n\n"@ + output
    }
}

/// The frame `--watch` writes for a changed report.
pub fn watch_frame(output: &str, as_json: bool, timestamp: &str) -> (res: String)
    ensures
        res@ == spec_frame(output@, as_json, timestamp@),
{
    if as_json {
        let mut s = owned(output);
        push_str(&mut s, "\n");
        s
    } else {
        let mut s = owned("\x1b[2J\x1b[H");
        push_str(&mut s, "whatcable-linux --watch \u{b7} ");
        push_str(&mut s, timestamp);
        push_str(&mut s, "\n\n");
        push_str(&mut s, output);
        s
    }
}

/// One round of `--watch`: the report `output` after `last` was shown gives
/// what is shown from now on, and whether a frame is written.
pub fn watch_step(last: Option<String>, output: String) -> (res: (Option<String>, bool))
    ensures
        res.1 == spec_changed(opt_view(last), output@),
        opt_view(res.0) == if res.1 {
            Some(output@)
        } else {
            opt_view(last)
        },
{
    if output_changed(&last, output.as_str()) {
        (Some(output), true)
    } else {
        (last, false)
    }
}

/// Showing a report twice in a row writes one frame: after a round that
/// showed `output`, the same report again writes nothing.
pub proof fn law_unchanged_report_is_shown_once(last: Option<Seq<char>>, output: Seq<char>)
    ensures
        !spec_changed(
            if spec_changed(last, output) {
                Some(output)
            } else {
                last
            },
            output,
        ),
{
}

} // verus!
