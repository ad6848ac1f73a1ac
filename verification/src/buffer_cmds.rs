//! Buffer-level commands: switching, killing, and listing buffers.
use vstd::prelude::*;
use vstd::string::StringExecFns;

use crate::editor::EditorState;
use crate::registry::CommandContext;
use crate::registry::CommandResult;

verus! {

/// The relation `switch-to-buffer` establishes between the editor before and after.
pub open spec fn switch_to_buffer_post(
    pre: EditorState,
    post: EditorState,
    ctx: CommandContext,
    r: CommandResult,
) -> bool {
    &&& (post.wf())
    &&& (post.minibuffer.state == crate::minibuffer::MinibufferState::Prompt)
    &&& (post.minibuffer.callback matches Some(cb) && cb@ == "switch-to-buffer-complete"@)
}

/// Prompt for a buffer name to switch to.
pub fn switch_to_buffer(state: &mut EditorState, ctx: &CommandContext) -> (r: CommandResult)
    requires
        old(state).wf(),
    ensures
        switch_to_buffer_post(*old(state), *final(state), *ctx, r),
{
    state.start_minibuffer_prompt("Switch to buffer: ", "switch-to-buffer-complete");
    Ok(())
}

/// The relation `kill-buffer` establishes between the editor before and after.
pub open spec fn kill_buffer_post(
    pre: EditorState,
    post: EditorState,
    ctx: CommandContext,
    r: CommandResult,
) -> bool {
    &&& (post.wf())
    &&& (post.minibuffer.state == crate::minibuffer::MinibufferState::Prompt)
    &&& (post.minibuffer.callback matches Some(cb) && cb@ == "kill-buffer-complete"@)
}

/// Prompt for a buffer name to kill.
pub fn kill_buffer(state: &mut EditorState, ctx: &CommandContext) -> (r: CommandResult)
    requires
        old(state).wf(),
    ensures
        kill_buffer_post(*old(state), *final(state), *ctx, r),
{
    state.start_minibuffer_prompt("Kill buffer: ", "kill-buffer-complete");
    Ok(())
}

/// The relation `list-buffers` establishes between the editor before and after.
pub open spec fn list_buffers_post(
    pre: EditorState,
    post: EditorState,
    ctx: CommandContext,
    r: CommandResult,
) -> bool {
    &&& (post.wf())
    &&& (post.message is Some)
}

/// Show every buffer with its modified and read-only flags.
#[verifier::loop_isolation(false)]
pub fn list_buffers(state: &mut EditorState, ctx: &CommandContext) -> (r: CommandResult)
    requires
        old(state).wf(),
    ensures
        list_buffers_post(*old(state), *final(state), *ctx, r),
{
    let mut msg = "Buffers:\n".to_owned();
    let n = state.buffers.buffers.len();
    let mut i: usize = 0;
    while i < n
        invariant
            i <= n,
            n == state.buffers.buffers@.len(),
            *state == *old(state),
        decreases n - i,
    {
        if state.buffers.buffers[i].modified {
            msg.append("  *");
        } else {
            msg.append("   ");
        }
        if state.buffers.buffers[i].read_only {
            msg.append("% ");
        } else {
            msg.append("  ");
        }
        msg.append(state.buffers.buffers[i].name.as_str());
        msg.append("\n");
        i += 1;
    }
    state.message = Some(msg);
    Ok(())
}

} // verus!
