//! Window commands: splitting, closing, and cycling windows.
use vstd::prelude::*;

use crate::editor::EditorState;
use crate::registry::CommandContext;
use crate::registry::CommandResult;

verus! {

/// The relation `split-window-below` establishes between the editor before and after.
pub open spec fn split_window_below_post(
    pre: EditorState,
    post: EditorState,
    ctx: CommandContext,
    r: CommandResult,
) -> bool {
    &&& (post.wf())
    &&& (post.message matches Some(m) && m@ == "Window split vertically"@)
    &&& (post.windows.current == pre.windows.current)
    &&& (pre.windows.windows_seq().len() > 0 ==> ({
            let c = pre.windows.current as int;
            &&& post.windows.windows_seq().len() == pre.windows.windows_seq().len()
                + 1
            &&& post.windows.windows_seq()[c + 1].buffer_id
                == pre.windows.windows_seq()[c].buffer_id
            &&& forall|i: int|
                0 <= i <= c ==> (#[trigger] post.windows.windows_seq()[i]).buffer_id
                    == pre.windows.windows_seq()[i].buffer_id
                    && post.windows.windows_seq()[i].cursors
                    == pre.windows.windows_seq()[i].cursors
        }))
}

/// Split the current window into two stacked halves.
pub fn split_window_below(state: &mut EditorState, ctx: &CommandContext) -> (r: CommandResult)
    requires
        old(state).wf(),
    ensures
        split_window_below_post(*old(state), *final(state), *ctx, r),
{
    state.windows.split_vertical();
    state.message = Some("Window split vertically".to_owned());
    Ok(())
}

/// The relation `split-window-right` establishes between the editor before and after.
pub open spec fn split_window_right_post(
    pre: EditorState,
    post: EditorState,
    ctx: CommandContext,
    r: CommandResult,
) -> bool {
    &&& (post.wf())
    &&& (post.message matches Some(m) && m@ == "Window split horizontally"@)
}

/// Split the current window into two side-by-side halves.
pub fn split_window_right(state: &mut EditorState, ctx: &CommandContext) -> (r: CommandResult)
    requires
        old(state).wf(),
    ensures
        split_window_right_post(*old(state), *final(state), *ctx, r),
{
    state.windows.split_horizontal();
    state.message = Some("Window split horizontally".to_owned());
    Ok(())
}

/// The relation `delete-window` establishes between the editor before and after.
pub open spec fn delete_window_post(
    pre: EditorState,
    post: EditorState,
    ctx: CommandContext,
    r: CommandResult,
) -> bool {
    &&& (post.wf())
    &&& (pre.windows.windows_seq().len() > 1 ==> post.windows.windows_seq().len()
            == pre.windows.windows_seq().len() - 1 && (post.message matches Some(m)
            && m@ == "Window deleted"@))
    &&& (pre.windows.windows_seq().len() <= 1 ==> post.windows.windows_seq()
            == pre.windows.windows_seq() && (post.message matches Some(m) && m@
            == "Cannot delete the only window"@))
}

/// Close the current window; the last window stays.
pub fn delete_window(state: &mut EditorState, ctx: &CommandContext) -> (r: CommandResult)
    requires
        old(state).wf(),
    ensures
        delete_window_post(*old(state), *final(state), *ctx, r),
{
    if state.windows.count() > 1 {
        state.windows.delete_current();
        state.message = Some("Window deleted".to_owned());
    } else {
        state.message = Some("Cannot delete the only window".to_owned());
    }
    Ok(())
}

/// The relation `delete-other-windows` establishes between the editor before and after.
pub open spec fn delete_other_windows_post(
    pre: EditorState,
    post: EditorState,
    ctx: CommandContext,
    r: CommandResult,
) -> bool {
    &&& (post.wf())
    &&& (post.message matches Some(m) && m@ == "Deleted other windows"@)
}

/// Close every window but the current one.
pub fn delete_other_windows(state: &mut EditorState, ctx: &CommandContext) -> (r: CommandResult)
    requires
        old(state).wf(),
    ensures
        delete_other_windows_post(*old(state), *final(state), *ctx, r),
{
    state.windows.delete_others();
    state.message = Some("Deleted other windows".to_owned());
    Ok(())
}

/// The relation `other-window` establishes between the editor before and after.
pub open spec fn other_window_post(
    pre: EditorState,
    post: EditorState,
    ctx: CommandContext,
    r: CommandResult,
) -> bool {
    &&& (post.wf())
    &&& (post.windows.windows_seq() == pre.windows.windows_seq())
    &&& (pre.windows.windows_seq().len() == 0 ==> post.windows.current == pre.windows.current)
    &&& (pre.windows.windows_seq().len() > 0 ==> post.windows.current == (pre.windows.current + 1) % (pre.windows.windows_seq().len() as int))
}

/// Select the next window.
pub fn other_window(state: &mut EditorState, ctx: &CommandContext) -> (r: CommandResult)
    requires
        old(state).wf(),
    ensures
        other_window_post(*old(state), *final(state), *ctx, r),
{
    state.windows.cycle_next();
    Ok(())
}

} // verus!
