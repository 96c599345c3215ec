//! The desktop context of a recording: the window that was active when it
//! started, and the text selected there (bounded in size, never echoed in
//! errors). Reading the window and the selection is platform work; this
//! module decides what is kept and what is refused.
use vstd::prelude::*;
use crate::error::AppError;
use crate::text::{chars_of, lemma_trim_shortens, owned, string_of, trim, trimmed_chars};

verus! {

/// Largest selection, in Unicode scalar values, that may be captured.
pub const MAX_SELECTION_CHARS: usize = 16_000;

/// The error text for an oversized selection; it never quotes the selection.
pub open spec fn selection_too_long_text() -> Seq<char> {
    "Selected text exceeds the 16,000-character limit."@
}

fn selection_too_long() -> (e: AppError)
    ensures
        e matches AppError::Output(m) && m@ == selection_too_long_text(),
{
    AppError::Output(owned("Selected text exceeds the 16,000-character limit."))
}

/// The window active when recording started (0 when the platform has none to
/// offer) and the selection captured from it.
#[derive(Debug)]
pub struct DesktopContext {
    pub target_window: isize,
    pub selected_text: Option<String>,
}

/// The context of the recording in progress, if any.
#[derive(Debug)]
pub struct DesktopContextState(pub Option<DesktopContext>);

/// What reading the focused control's selection produced.
pub enum SelectionRead {
    /// The selection, or `None` when nothing readable is selected.
    Text(Option<String>),
    /// The selection is larger than the limit.
    TooLong,
    /// The control does not expose a selection, or reading it failed.
    Unavailable(AppError),
}

/// The texts of `ranges`, as character sequences.
pub open spec fn range_views(ranges: Seq<String>) -> Seq<Seq<char>> {
    Seq::new(ranges.len(), |i: int| ranges[i]@)
}

/// The non-empty ranges joined with '\n'.
pub open spec fn joined(ranges: Seq<Seq<char>>) -> Seq<char>
    decreases ranges.len(),
{
    if ranges.len() == 0 {
        Seq::empty()
    } else {
        let prev = joined(ranges.drop_last());
        let r = ranges.last();
        if r.len() == 0 {
            prev
        } else if prev.len() == 0 {
            r
        } else {
            prev + seq!['\n'] + r
        }
    }
}

/// Joining more ranges never shortens the text.
pub proof fn lemma_joined_grows(ranges: Seq<Seq<char>>, i: int, k: int)
    requires
        0 <= i <= k <= ranges.len(),
    ensures
        joined(ranges.take(i)).len() <= joined(ranges.take(k)).len(),
    decreases k - i,
{
    if i < k {
        lemma_joined_grows(ranges, i, k - 1);
        assert(ranges.take(k).drop_last() == ranges.take(k - 1));
    }
}

impl DesktopContext {
    /// The context where no target window can be tracked: nothing to restore
    /// and no selection.
    pub fn capture(_selection_enabled: bool) -> (r: Result<Self, AppError>)
        ensures
            r matches Ok(c) && c.target_window == 0 && c.selected_text is None,
    {
        Ok(DesktopContext { target_window: 0, selected_text: None })
    }

    /// Builds the context from the window that was in the foreground (0 when
    /// there is none) and, when selection capture is enabled, what reading
    /// its selection produced. No window is an error; an oversized selection
    /// is an error; an unreadable selection falls back to plain dictation.
    pub fn capture_window(foreground: isize, selection: Option<SelectionRead>) -> (r: Result<
        Self,
        AppError,
    >)
        ensures
            foreground == 0 ==> (r matches Err(AppError::Output(m)) && m@
                == "Cannot capture the target window for this recording."@),
            (foreground != 0 && selection matches Some(SelectionRead::TooLong)) ==> (r matches Err(
                AppError::Output(m),
            ) && m@ == selection_too_long_text()),
            r is Ok <==> foreground != 0 && !(selection matches Some(SelectionRead::TooLong)),
            r matches Ok(c) ==> c.target_window == foreground && c.selected_text == match selection {
                Some(SelectionRead::Text(t)) => t,
                _ => None,
            },
    {
        if foreground == 0 {
            return Err(
                AppError::Output(owned("Cannot capture the target window for this recording.")),
            );
        }
        let selected_text = match selection {
            Some(SelectionRead::Text(t)) => t,
            Some(SelectionRead::TooLong) => {
                return Err(selection_too_long());
            },
            Some(SelectionRead::Unavailable(_)) => None,
            None => None,
        };
        Ok(DesktopContext { target_window: foreground, selected_text })
    }

    /// Where no target window is tracked there is nothing to restore.
    pub fn restore_target(&self) -> (r: Result<(), AppError>)
        ensures
            r is Ok,
    {
        Ok(())
    }

    /// Judges the attempt to bring the target window back to the foreground:
    /// it must still exist, must be (or be made) the foreground window, and
    /// must be verified as foreground afterwards; otherwise nothing is typed.
    pub fn restore_outcome(
        &self,
        still_exists: bool,
        was_foreground: bool,
        set_foreground_ok: bool,
        foreground_after: bool,
    ) -> (r: Result<(), AppError>)
        ensures
            r is Ok <==> still_exists && (was_foreground || set_foreground_ok) && foreground_after,
            !still_exists ==> (r matches Err(AppError::Output(m)) && m@
                == "The original target window is no longer available."@),
            still_exists && !was_foreground && !set_foreground_ok ==> (r matches Err(
                AppError::Output(m),
            ) && m@ == "Windows would not restore the original target window."@),
            still_exists && (was_foreground || set_foreground_ok) && !foreground_after ==> (r matches Err(
                AppError::Output(m),
            ) && m@ == "The original target window could not be verified."@),
    {
        if !still_exists {
            return Err(AppError::Output(owned("The original target window is no longer available.")));
        }
        if !was_foreground && !set_foreground_ok {
            return Err(
                AppError::Output(owned("Windows would not restore the original target window.")),
            );
        }
        if !foreground_after {
            return Err(AppError::Output(owned("The original target window could not be verified.")));
        }
        Ok(())
    }
}

/// Refuses a selection longer than `MAX_SELECTION_CHARS` Unicode characters,
/// without quoting it.
pub fn validate_selection_size(selection: &str) -> (r: Result<(), AppError>)
    ensures
        r is Ok <==> selection@.len() <= MAX_SELECTION_CHARS,
        r matches Err(e) ==> (e matches AppError::Output(m) && m@ == selection_too_long_text()),
{
    let chars = chars_of(selection);
    if chars.len() > MAX_SELECTION_CHARS {
        return Err(selection_too_long());
    }
    Ok(())
}

/// Whether a control's count of selected ranges can be read: not negative
/// and no more than one past the character limit.
pub fn selection_range_count_acceptable(length: i32) -> (r: bool)
    ensures
        r == (0 <= length <= MAX_SELECTION_CHARS + 1),
{
    0 <= length && length <= 16_001
}

/// The error for a UI Automation step that failed: selection capture is
/// unavailable, and dictation proceeds without it.
pub fn unavailable(operation: &str, error: &str) -> (r: SelectionRead)
    ensures
        r matches SelectionRead::Unavailable(AppError::Output(m)) && m@ == "UI Automation could not "@
            + operation@ + ": "@ + error@,
{
    SelectionRead::Unavailable(
        AppError::Output(owned("UI Automation could not ").concat(operation).concat(": ").concat(error)),
    )
}

/// Joins the selected ranges (empty ones skipped) with newlines and trims the
/// outer whitespace. Refuses the selection when the joined text exceeds the
/// limit; `None` when nothing but whitespace is selected.
pub fn normalize_selection(ranges: Vec<String>) -> (r: Result<Option<String>, AppError>)
    ensures
        r is Err <==> joined(range_views(ranges@)).len() > MAX_SELECTION_CHARS,
        r matches Err(e) ==> (e matches AppError::Output(m) && m@ == selection_too_long_text()),
        r matches Ok(sel) ==> (sel is None <==> trim(joined(range_views(ranges@))).len() == 0),
        r matches Ok(sel) ==> (sel matches Some(s) ==> s@ == trim(joined(range_views(ranges@)))),
        r matches Ok(sel) ==> (sel matches Some(s) ==> s@.len() <= MAX_SELECTION_CHARS),
{
    let ghost views = range_views(ranges@);
    let mut selection: Vec<char> = Vec::new();
    let mut i: usize = 0;
    while i < ranges.len()
        invariant
            i <= ranges@.len(),
            views == range_views(ranges@),
            selection@ == joined(views.take(i as int)),
            selection@.len() <= MAX_SELECTION_CHARS,
        decreases ranges@.len() - i,
    {
        let range = chars_of(ranges[i].as_str());
        assert(views.take(i + 1).drop_last() == views.take(i as int));
        assert(views.take(i + 1).last() == range@);
        if range.len() > 0 {
            if selection.len() > 0 {
                selection.push('\n');
            }
            let mut j: usize = 0;
            let ghost base = selection@;
            while j < range.len()
                invariant
                    j <= range@.len(),
                    selection@ == base + range@.take(j as int),
                decreases range@.len() - j,
            {
                selection.push(range[j]);
                assert(range@.take(j + 1) == range@.take(j as int).push(range@[j as int]));
                j = j + 1;
            }
            assert(range@.take(range@.len() as int) == range@);
            if selection.len() > MAX_SELECTION_CHARS {
                proof {
                    lemma_joined_grows(views, i + 1, views.len() as int);
                    assert(views.take(views.len() as int) == views);
                }
                return Err(selection_too_long());
            }
        }
        i = i + 1;
    }
    assert(views.take(views.len() as int) == views);
    let trimmed = trimmed_chars(selection.as_slice());
    proof {
        lemma_trim_shortens(selection@);
    }
    if trimmed.len() == 0 {
        Ok(None)
    } else {
        Ok(Some(string_of(trimmed.as_slice())))
    }
}

} // verus!
