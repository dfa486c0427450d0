//! What collection tells the operator before events start to flow.

use vstd::prelude::*;
use vstd::string::*;
use crate::file_event::{filter_view, is_rendering, passes, FileEvent};

verus! {

/// The items of `es` separated by `, `.
pub open spec fn joined(es: Seq<Seq<char>>) -> Seq<char>
    decreases es.len(),
{
    if es.len() == 0 {
        Seq::empty()
    } else if es.len() == 1 {
        es[0]
    } else {
        joined(es.drop_last()) + ", "@ + es.last()
    }
}

/// The line that says which events collection keeps.
pub open spec fn filter_line(exts: Option<Seq<Seq<char>>>) -> Seq<char> {
    match exts {
        Some(es) => if es.len() > 0 {
            "Monitoring files with extensions: "@ + joined(es)
        } else {
            "Monitoring all file operations"@
        },
        None => "Monitoring all file operations"@,
    }
}

/// The line that says which events collection keeps: the listed extensions,
/// or all operations when no extension is listed.
pub fn display_filter_info(extensions: &Option<Vec<String>>) -> (r: String)
    ensures
        r@ == filter_line(filter_view(*extensions)),
{
    let mut s = String::new();
    match extensions {
        Some(exts) if exts.len() > 0 => {
            let ghost es = exts@.map_values(|e: String| e@);
            s.append("Monitoring files with extensions: ");
            let ghost head = s@;
            s.append(exts[0].as_str());
            assert(es.take(1) =~= seq![es[0]]);
            assert(s@ == head + joined(es.take(1)));
            let mut i: usize = 1;
            while i < exts.len()
                invariant
                    1 <= i <= exts@.len(),
                    es == exts@.map_values(|e: String| e@),
                    s@ == head + joined(es.take(i as int)),
                decreases exts@.len() - i,
            {
                s.append(", ");
                s.append(exts[i].as_str());
                assert(es.take(i + 1).drop_last() =~= es.take(i as int));
                i = i + 1;
                assert(s@ =~= head + joined(es.take(i as int)));
            }
            assert(es.take(i as int) =~= es);
            assert(filter_view(*extensions) == Some(es));
        },
        _ => {
            s.append("Monitoring all file operations");
        },
    }
    s
}

/// What the collection loop is handed next.
pub enum CollectInput {
    /// A decoded event arrived.
    Event(FileEvent),
    /// The channel of decoded events closed.
    ChannelClosed,
    /// The operator asked to stop.
    Interrupted,
}

/// What the collection loop does next.
pub enum CollectAction {
    /// Write this line to the output and flush it.
    Print(String),
    /// Nothing for this input; wait for the next one.
    Skip,
    /// Stop collecting and stop monitoring.
    Stop,
}

/// The collection loop's decision on one input: an event that passes the
/// filter is printed, one that does not is skipped, and a closed channel or
/// an interrupt stops collection.
pub fn collect_step(input: CollectInput, extensions: &Option<Vec<String>>) -> (r: CollectAction)
    ensures
        match input {
            CollectInput::Event(e) => if passes(e.file_path@, filter_view(*extensions)) {
                r is Print && is_rendering(e, r->Print_0@)
            } else {
                r is Skip
            },
            _ => r is Stop,
        },
{
    match input {
        CollectInput::Event(e) => if e.matches_extensions(extensions) {
            CollectAction::Print(e.to_string())
        } else {
            CollectAction::Skip
        },
        _ => CollectAction::Stop,
    }
}

} // verus!
