//! Capturing the selected text: what is kept of the text that the
//! accessibility interface or the clipboard hands back.
use crate::text::{chars_of, string_of, trim, trim_bounds};
use vstd::prelude::*;

verus! {

/// The selection as read: its trimmed text, or nothing when that is empty.
pub open spec fn selection_spec(raw: Seq<char>) -> Option<Seq<char>> {
    if trim(raw).len() == 0 {
        None
    } else {
        Some(trim(raw))
    }
}

/// The text by its view, if any.
pub open spec fn opt_view(o: Option<String>) -> Option<Seq<char>> {
    match o {
        Some(s) => Some(s@),
        None => None,
    }
}

/// The selection in captured text: trimmed, and nothing when no text was
/// captured or it is all whitespace.
pub fn normalize_selection(captured: Option<String>) -> (sel: Option<String>)
    ensures
        opt_view(sel) == match captured {
            Some(t) => selection_spec(t@),
            None => None::<Seq<char>>,
        },
{
    match captured {
        None => None,
        Some(t) => {
            let v = chars_of(t.as_str());
            let (lo, hi) = trim_bounds(&v);
            if lo == hi {
                None
            } else {
                Some(string_of(&v, lo, hi))
            }
        },
    }
}

/// The text of the ranges that could be read, one after the other.
pub open spec fn joined_ranges(ranges: Seq<Option<String>>) -> Seq<char>
    decreases ranges.len(),
{
    if ranges.len() == 0 {
        Seq::empty()
    } else {
        joined_ranges(ranges.drop_last()) + match ranges.last() {
            Some(t) => t@,
            None => Seq::<char>::empty(),
        }
    }
}

/// The selection made of several text ranges (some of which could not be
/// read): their texts joined, trimmed; nothing when that is empty.
pub fn join_selection(ranges: &Vec<Option<String>>) -> (sel: Option<String>)
    ensures
        opt_view(sel) == selection_spec(joined_ranges(ranges@)),
{
    let mut text = String::new();
    let mut i: usize = 0;
    assert(ranges@.take(0) =~= Seq::<Option<String>>::empty());
    while i < ranges.len()
        invariant
            i <= ranges.len(),
            text@ == joined_ranges(ranges@.take(i as int)),
        decreases ranges.len() - i,
    {
        assert(ranges@.take(i + 1).drop_last() =~= ranges@.take(i as int));
        assert(ranges@.take(i + 1).last() == ranges@[i as int]);
        match &ranges[i] {
            Some(t) => {
                text.append(t.as_str());
            },
            None => {
                assert(text@ + Seq::<char>::empty() =~= text@);
            },
        }
        i = i + 1;
    }
    assert(ranges@.take(ranges.len() as int) =~= ranges@);
    normalize_selection(Some(text))
}

/// What capturing the selection does after asking the accessibility
/// interface: keep the selection it read, or fall back to the clipboard.
#[derive(Debug)]
pub enum CaptureStep {
    Done(Option<String>),
    UseClipboard,
}

/// The accessibility interface is asked first: when it reads a selection
/// (`Some(Some(text))`), that is the result; when it reads none (`Some(None)`)
/// or cannot be used (`None`), the clipboard is tried.
pub fn after_accessibility(read: Option<Option<String>>) -> (step: CaptureStep)
    ensures
        match read {
            Some(Some(t)) => step matches CaptureStep::Done(Some(u)) && u@ == t@,
            _ => step is UseClipboard,
        },
{
    match read {
        Some(Some(t)) => CaptureStep::Done(Some(t)),
        _ => CaptureStep::UseClipboard,
    }
}

/// What the clipboard held before the simulated copy, as far as it can be
/// put back: text, an image (kept by the caller), or nothing that can be
/// read back.
#[derive(Debug)]
pub enum SavedClipboard {
    Text(String),
    Image,
    Empty,
}

/// How the clipboard is put back after the copy: the saved text, the saved
/// image, or cleared.
#[derive(Debug)]
pub enum ClipboardRestore {
    Text(String),
    Image,
    Clear,
}

/// After the simulated copy: the selection, and how to put the clipboard
/// back as it was. `changed` says whether the copy changed the clipboard;
/// when it did not, nothing was selected and there is no selection (what
/// the clipboard holds is older text). Otherwise the selection is what the
/// clipboard then holds, trimmed. The clipboard is always put back to what
/// it held before: its text, its image, or nothing.
pub fn after_copy(saved: SavedClipboard, changed: bool, captured: Option<String>) -> (r: (
    Option<String>,
    ClipboardRestore,
))
    ensures
        !changed ==> r.0 is None,
        changed ==> opt_view(r.0) == match captured {
            Some(t) => selection_spec(t@),
            None => None::<Seq<char>>,
        },
        match saved {
            SavedClipboard::Text(t) => r.1 matches ClipboardRestore::Text(u) && u@ == t@,
            SavedClipboard::Image => r.1 is Image,
            SavedClipboard::Empty => r.1 is Clear,
        },
{
    let selection = if changed {
        normalize_selection(captured)
    } else {
        None
    };
    let restore = match saved {
        SavedClipboard::Text(t) => ClipboardRestore::Text(t),
        SavedClipboard::Image => ClipboardRestore::Image,
        SavedClipboard::Empty => ClipboardRestore::Clear,
    };
    (selection, restore)
}

/// How long to wait for the Alt keys to be released before copying, in
/// milliseconds.
pub const ALT_RELEASE_WAIT_MS: u64 = 400;

/// How long to wait for the copy to reach the clipboard, in milliseconds.
pub const COPY_WAIT_MS: u64 = 600;

/// Whether a wait goes on: what it waits for has not happened and less
/// than `limit_ms` has passed.
pub fn keep_waiting(elapsed_ms: u64, limit_ms: u64, done: bool) -> (w: bool)
    ensures
        w == (!done && elapsed_ms < limit_ms),
{
    !done && elapsed_ms < limit_ms
}

/// Whether the Alt keys are all up, given the key states reported for left
/// Alt, right Alt and Alt (the top bit is set while a key is down).
pub fn alt_released(left: u16, right: u16, either: u16) -> (up: bool)
    ensures
        up == (left & 0x8000 == 0 && right & 0x8000 == 0 && either & 0x8000 == 0),
{
    let r = (left | right | either) & 0x8000 == 0;
    assert(((left | right | either) & 0x8000 == 0) == (left & 0x8000 == 0 && right & 0x8000 == 0
        && either & 0x8000 == 0)) by (bit_vector);
    r
}

} // verus!
