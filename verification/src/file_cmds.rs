//! File commands: opening, saving, and leaving the editor. The disk work
//! itself becomes an `IoRequest` for the surrounding program.
use vstd::prelude::*;

use vstd::string::StringExecFns;

use crate::buffer::Buffer;
use crate::editor::EditorState;
use crate::editor::IoRequest;
use crate::registry::CommandContext;
use crate::registry::CommandResult;
use crate::rope::rope_to_string;

verus! {

/// Whether any buffer has unsaved changes.
pub open spec fn any_modified(s: Seq<Buffer>) -> bool {
    exists|i: int| 0 <= i < s.len() && (#[trigger] s[i]).modified
}

/// The relation `find-file` establishes between the editor before and after.
pub open spec fn find_file_post(
    pre: EditorState,
    post: EditorState,
    ctx: CommandContext,
    r: CommandResult,
) -> bool {
    &&& (post.wf())
    &&& (post.minibuffer.state == crate::minibuffer::MinibufferState::Prompt)
    &&& (post.minibuffer.callback matches Some(cb) && cb@ == "find-file-complete"@)
}

/// Prompt for a file to open.
pub fn find_file(state: &mut EditorState, ctx: &CommandContext) -> (r: CommandResult)
    requires
        old(state).wf(),
    ensures
        find_file_post(*old(state), *final(state), *ctx, r),
{
    state.start_minibuffer_prompt("Find file: ", "find-file-complete");
    Ok(())
}

/// The relation `save-buffer` establishes between the editor before and after.
pub open spec fn save_buffer_post(
    pre: EditorState,
    post: EditorState,
    ctx: CommandContext,
    r: CommandResult,
) -> bool {
    &&& (post.wf())
    &&& (pre.current_target() is Some ==> ({
            let i = pre.current_target().unwrap();
            match pre.buffers.buffers@[i].file_path {
                Some(p) => ({
                    &&& post.pending_io@.len() == pre.pending_io@.len() + 1
                    &&& post.pending_io@.last() matches IoRequest::SaveFile {
                        buffer,
                        path,
                        text,
                    } && buffer == pre.buffers.buffers@[i].id && path@ == p@ && text@ == pre.target_text()
                }),
                None => post.minibuffer.state == crate::minibuffer::MinibufferState::Prompt
                    && (post.minibuffer.callback matches Some(cb) && cb@
                    == "save-buffer-complete"@),
            }
        }))
}

/// Save the current buffer to its file, prompting for a path when it has
/// none. The write itself is queued for the surrounding program.
pub fn save_buffer(state: &mut EditorState, ctx: &CommandContext) -> (r: CommandResult)
    requires
        old(state).wf(),
    ensures
        save_buffer_post(*old(state), *final(state), *ctx, r),
{
    match state.windows.current_buffer_id() {
        Some(bid) => {
            match state.buffers.index_of(bid) {
                Some(i) => {
                    let path: String = match &state.buffers.buffers[i].file_path {
                        Some(p) => p.clone(),
                        None => {
                            state.start_minibuffer_prompt(
                                "File to save in: ",
                                "save-buffer-complete",
                            );
                            return Ok(());
                        },
                    };
                    let text = rope_to_string(&state.buffers.buffers[i].text);
                    let id = state.buffers.buffers[i].id;
                    state.pending_io.push(IoRequest::SaveFile { buffer: id, path, text });
                    Ok(())
                },
                None => Ok(()),
            }
        },
        None => Ok(()),
    }
}

/// The relation `write-file` establishes between the editor before and after.
pub open spec fn write_file_post(
    pre: EditorState,
    post: EditorState,
    ctx: CommandContext,
    r: CommandResult,
) -> bool {
    &&& (post.wf())
    &&& (post.minibuffer.state == crate::minibuffer::MinibufferState::Prompt)
    &&& (post.minibuffer.callback matches Some(cb) && cb@ == "write-file-complete"@)
}

/// Prompt for a path to write the current buffer to.
pub fn write_file(state: &mut EditorState, ctx: &CommandContext) -> (r: CommandResult)
    requires
        old(state).wf(),
    ensures
        write_file_post(*old(state), *final(state), *ctx, r),
{
    state.start_minibuffer_prompt("Write file: ", "write-file-complete");
    Ok(())
}

/// The relation `exit` establishes between the editor before and after.
pub open spec fn exit_post(
    pre: EditorState,
    post: EditorState,
    ctx: CommandContext,
    r: CommandResult,
) -> bool {
    &&& (post.wf())
    &&& (any_modified(pre.buffers.buffers@) ==> post.pending_exit && (post.message matches Some(m) && m@ == "Modified buffers exist; really exit? (y or n) "@))
    &&& (!any_modified(pre.buffers.buffers@) ==> post.should_quit)
}

/// Leave the editor; with modified buffers a single confirmation is asked
/// first.
#[verifier::loop_isolation(false)]
pub fn exit(state: &mut EditorState, ctx: &CommandContext) -> (r: CommandResult)
    requires
        old(state).wf(),
    ensures
        exit_post(*old(state), *final(state), *ctx, r),
{
    let n = state.buffers.buffers.len();
    let mut found = false;
    let mut i: usize = 0;
    while i < n
        invariant
            i <= n,
            n == state.buffers.buffers@.len(),
            *state == *old(state),
            found ==> any_modified(state.buffers.buffers@),
            !found ==> (forall|j: int|
                0 <= j < i ==> !(#[trigger] state.buffers.buffers@[j]).modified),
        decreases n - i,
    {
        if state.buffers.buffers[i].modified {
            proof {
                assert(state.buffers.buffers@[i as int].modified);
            }
            found = true;
        }
        i += 1;
    }
    proof {
        if !found {
            assert(!any_modified(state.buffers.buffers@));
        }
    }
    if found {
        state.message = Some("Modified buffers exist; really exit? (y or n) ".to_owned());
        state.pending_exit = true;
    } else {
        state.should_quit = true;
    }
    Ok(())
}

} // verus!
