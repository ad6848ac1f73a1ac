//! Command dispatch: the default registry, the action dispatcher, and the
//! editor's key pipeline with its post-command hook.
use vstd::prelude::*;
use vstd::string::StringExecFns;

use crate::buffer_mgr::lemma_buffers_wf_update;
use crate::buffer_mgr::str_eq;
use crate::editor::EditorState;
use crate::editor::IoRequest;
use crate::key::Key;
use crate::key::KeyEvent;
use crate::registry::Command;
use crate::registry::CommandAction;
use crate::registry::CommandContext;
use crate::registry::CommandError;
use crate::registry::CommandRegistry;
use crate::registry::CommandResult;
use crate::registry::PrefixArg;
use crate::resolver::KeyResolution;
use crate::minibuffer::Minibuffer;
use crate::rope_ext::char_to_position;

verus! {

/// The editor as a command sees it: the prefix argument already drained.
pub open spec fn drained(pre: EditorState) -> EditorState {
    EditorState { prefix_arg: PrefixArg::Unset, ..pre }
}

/// The context a command run from `pre` receives.
pub open spec fn ctx_for(pre: EditorState) -> CommandContext {
    CommandContext { prefix_arg: pre.prefix_arg, last_command: pre.last_command }
}

/// What running one action promises: the matching command's relation
/// between the editor before and after.
pub open spec fn action_post(
    action: CommandAction,
    pre: EditorState,
    post: EditorState,
    ctx: CommandContext,
    r: CommandResult,
) -> bool {
    match action {
        CommandAction::SelfInsertCommand => r is Ok && post == pre,
        CommandAction::DeleteChar => crate::editing::delete_char_post(pre, post, ctx, r),
        CommandAction::DeleteBackwardChar => crate::editing::delete_backward_char_post(pre, post, ctx, r),
        CommandAction::Newline => crate::editing::newline_post(pre, post, ctx, r),
        CommandAction::OpenLine => crate::editing::open_line_post(pre, post, ctx, r),
        CommandAction::TransposeChars => crate::editing::transpose_chars_post(pre, post, ctx, r),
        CommandAction::SetMarkCommand => crate::editing::set_mark_command_post(pre, post, ctx, r),
        CommandAction::ExchangePointAndMark => crate::editing::exchange_point_and_mark_post(pre, post, ctx, r),
        CommandAction::MarkWholeBuffer => crate::editing::mark_whole_buffer_post(pre, post, ctx, r),
        CommandAction::Undo => crate::editing::undo_command_post(pre, post, ctx, r),
        CommandAction::Redo => crate::editing::redo_command_post(pre, post, ctx, r),
        CommandAction::KeyboardQuit => crate::editing::keyboard_quit_post(pre, post, ctx, r),
        CommandAction::SpawnCursorsAtWordMatches => crate::editing::spawn_cursors_at_word_matches_post(pre, post, ctx, r),
        CommandAction::ClearMultipleCursors => crate::editing::clear_multiple_cursors_post(pre, post, ctx, r),
        CommandAction::ForwardChar => crate::motion::forward_char_post(pre, post, ctx, r),
        CommandAction::BackwardChar => crate::motion::backward_char_post(pre, post, ctx, r),
        CommandAction::NextLine => crate::motion::next_line_post(pre, post, ctx, r),
        CommandAction::PreviousLine => crate::motion::previous_line_post(pre, post, ctx, r),
        CommandAction::MoveBeginningOfLine => crate::motion::move_beginning_of_line_post(pre, post, ctx, r),
        CommandAction::MoveEndOfLine => crate::motion::move_end_of_line_post(pre, post, ctx, r),
        CommandAction::BeginningOfBuffer => crate::motion::beginning_of_buffer_post(pre, post, ctx, r),
        CommandAction::EndOfBuffer => crate::motion::end_of_buffer_post(pre, post, ctx, r),
        CommandAction::ForwardWord => crate::motion::forward_word_post(pre, post, ctx, r),
        CommandAction::BackwardWord => crate::motion::backward_word_post(pre, post, ctx, r),
        CommandAction::ScrollUpCommand => crate::motion::scroll_up_command_post(pre, post, ctx, r),
        CommandAction::ScrollDownCommand => crate::motion::scroll_down_command_post(pre, post, ctx, r),
        CommandAction::RecenterTopBottom => crate::motion::recenter_top_bottom_post(pre, post, ctx, r),
        CommandAction::GotoLine => crate::motion::goto_line_post(pre, post, ctx, r),
        CommandAction::ForwardCharShift => crate::motion::forward_char_shift_post(pre, post, ctx, r),
        CommandAction::BackwardCharShift => crate::motion::backward_char_shift_post(pre, post, ctx, r),
        CommandAction::NextLineShift => crate::motion::next_line_shift_post(pre, post, ctx, r),
        CommandAction::PreviousLineShift => crate::motion::previous_line_shift_post(pre, post, ctx, r),
        CommandAction::ForwardWordShift => crate::motion::forward_word_shift_post(pre, post, ctx, r),
        CommandAction::BackwardWordShift => crate::motion::backward_word_shift_post(pre, post, ctx, r),
        CommandAction::MoveBeginningOfLineShift => crate::motion::move_beginning_of_line_shift_post(pre, post, ctx, r),
        CommandAction::MoveEndOfLineShift => crate::motion::move_end_of_line_shift_post(pre, post, ctx, r),
        CommandAction::BeginningOfBufferShift => crate::motion::beginning_of_buffer_shift_post(pre, post, ctx, r),
        CommandAction::EndOfBufferShift => crate::motion::end_of_buffer_shift_post(pre, post, ctx, r),
        CommandAction::KillLine => crate::kill_yank::kill_line_post(pre, post, ctx, r),
        CommandAction::KillWord => crate::kill_yank::kill_word_post(pre, post, ctx, r),
        CommandAction::BackwardKillWord => crate::kill_yank::backward_kill_word_post(pre, post, ctx, r),
        CommandAction::KillRegion => crate::kill_yank::kill_region_post(pre, post, ctx, r),
        CommandAction::CopyRegionAsKill => crate::kill_yank::copy_region_as_kill_post(pre, post, ctx, r),
        CommandAction::Yank => crate::kill_yank::yank_post(pre, post, ctx, r),
        CommandAction::YankPop => crate::kill_yank::yank_pop_post(pre, post, ctx, r),
        CommandAction::SwitchToBuffer => crate::buffer_cmds::switch_to_buffer_post(pre, post, ctx, r),
        CommandAction::KillBuffer => crate::buffer_cmds::kill_buffer_post(pre, post, ctx, r),
        CommandAction::ListBuffers => crate::buffer_cmds::list_buffers_post(pre, post, ctx, r),
        CommandAction::FindFile => crate::file_cmds::find_file_post(pre, post, ctx, r),
        CommandAction::SaveBuffer => crate::file_cmds::save_buffer_post(pre, post, ctx, r),
        CommandAction::WriteFile => crate::file_cmds::write_file_post(pre, post, ctx, r),
        CommandAction::Exit => crate::file_cmds::exit_post(pre, post, ctx, r),
        CommandAction::SplitWindowBelow => crate::window_cmds::split_window_below_post(pre, post, ctx, r),
        CommandAction::SplitWindowRight => crate::window_cmds::split_window_right_post(pre, post, ctx, r),
        CommandAction::DeleteWindow => crate::window_cmds::delete_window_post(pre, post, ctx, r),
        CommandAction::DeleteOtherWindows => crate::window_cmds::delete_other_windows_post(pre, post, ctx, r),
        CommandAction::OtherWindow => crate::window_cmds::other_window_post(pre, post, ctx, r),
        CommandAction::ExecuteExtendedCommand => ({
            &&& post.minibuffer.state == crate::minibuffer::MinibufferState::Prompt
            &&& post.minibuffer.prompt@ == "M-x "@
            &&& (post.minibuffer.callback matches Some(cb) && cb@ == "execute-extended-command"@)
            &&& r is Ok
        }),
    }
}

/// Run `action` against the editor.
pub fn dispatch_action(state: &mut EditorState, action: CommandAction, ctx: &CommandContext) -> (r:
    CommandResult)
    requires
        old(state).wf(),
    ensures
        final(state).wf(),
        action_post(action, *old(state), *final(state), *ctx, r),
{
    match action {
        CommandAction::SelfInsertCommand => Ok(()),
        CommandAction::DeleteChar => crate::editing::delete_char(state, ctx),
        CommandAction::DeleteBackwardChar => crate::editing::delete_backward_char(state, ctx),
        CommandAction::Newline => crate::editing::newline(state, ctx),
        CommandAction::OpenLine => crate::editing::open_line(state, ctx),
        CommandAction::TransposeChars => crate::editing::transpose_chars(state, ctx),
        CommandAction::SetMarkCommand => crate::editing::set_mark_command(state, ctx),
        CommandAction::ExchangePointAndMark => crate::editing::exchange_point_and_mark(state, ctx),
        CommandAction::MarkWholeBuffer => crate::editing::mark_whole_buffer(state, ctx),
        CommandAction::Undo => crate::editing::undo_command(state, ctx),
        CommandAction::Redo => crate::editing::redo_command(state, ctx),
        CommandAction::KeyboardQuit => crate::editing::keyboard_quit(state, ctx),
        CommandAction::SpawnCursorsAtWordMatches => crate::editing::spawn_cursors_at_word_matches(
            state,
            ctx,
        ),
        CommandAction::ClearMultipleCursors => crate::editing::clear_multiple_cursors(state, ctx),
        CommandAction::ForwardChar => crate::motion::forward_char(state, ctx),
        CommandAction::BackwardChar => crate::motion::backward_char(state, ctx),
        CommandAction::NextLine => crate::motion::next_line(state, ctx),
        CommandAction::PreviousLine => crate::motion::previous_line(state, ctx),
        CommandAction::MoveBeginningOfLine => crate::motion::move_beginning_of_line(state, ctx),
        CommandAction::MoveEndOfLine => crate::motion::move_end_of_line(state, ctx),
        CommandAction::BeginningOfBuffer => crate::motion::beginning_of_buffer(state, ctx),
        CommandAction::EndOfBuffer => crate::motion::end_of_buffer(state, ctx),
        CommandAction::ForwardWord => crate::motion::forward_word(state, ctx),
        CommandAction::BackwardWord => crate::motion::backward_word(state, ctx),
        CommandAction::ScrollUpCommand => crate::motion::scroll_up_command(state, ctx),
        CommandAction::ScrollDownCommand => crate::motion::scroll_down_command(state, ctx),
        CommandAction::RecenterTopBottom => crate::motion::recenter_top_bottom(state, ctx),
        CommandAction::GotoLine => crate::motion::goto_line(state, ctx),
        CommandAction::ForwardCharShift => crate::motion::forward_char_shift(state, ctx),
        CommandAction::BackwardCharShift => crate::motion::backward_char_shift(state, ctx),
        CommandAction::NextLineShift => crate::motion::next_line_shift(state, ctx),
        CommandAction::PreviousLineShift => crate::motion::previous_line_shift(state, ctx),
        CommandAction::ForwardWordShift => crate::motion::forward_word_shift(state, ctx),
        CommandAction::BackwardWordShift => crate::motion::backward_word_shift(state, ctx),
        CommandAction::MoveBeginningOfLineShift => crate::motion::move_beginning_of_line_shift(
            state,
            ctx,
        ),
        CommandAction::MoveEndOfLineShift => crate::motion::move_end_of_line_shift(state, ctx),
        CommandAction::BeginningOfBufferShift => crate::motion::beginning_of_buffer_shift(
            state,
            ctx,
        ),
        CommandAction::EndOfBufferShift => crate::motion::end_of_buffer_shift(state, ctx),
        CommandAction::KillLine => crate::kill_yank::kill_line(state, ctx),
        CommandAction::KillWord => crate::kill_yank::kill_word(state, ctx),
        CommandAction::BackwardKillWord => crate::kill_yank::backward_kill_word(state, ctx),
        CommandAction::KillRegion => crate::kill_yank::kill_region(state, ctx),
        CommandAction::CopyRegionAsKill => crate::kill_yank::copy_region_as_kill(state, ctx),
        CommandAction::Yank => crate::kill_yank::yank(state, ctx),
        CommandAction::YankPop => crate::kill_yank::yank_pop(state, ctx),
        CommandAction::SwitchToBuffer => crate::buffer_cmds::switch_to_buffer(state, ctx),
        CommandAction::KillBuffer => crate::buffer_cmds::kill_buffer(state, ctx),
        CommandAction::ListBuffers => crate::buffer_cmds::list_buffers(state, ctx),
        CommandAction::FindFile => crate::file_cmds::find_file(state, ctx),
        CommandAction::SaveBuffer => crate::file_cmds::save_buffer(state, ctx),
        CommandAction::WriteFile => crate::file_cmds::write_file(state, ctx),
        CommandAction::Exit => crate::file_cmds::exit(state, ctx),
        CommandAction::SplitWindowBelow => crate::window_cmds::split_window_below(state, ctx),
        CommandAction::SplitWindowRight => crate::window_cmds::split_window_right(state, ctx),
        CommandAction::DeleteWindow => crate::window_cmds::delete_window(state, ctx),
        CommandAction::DeleteOtherWindows => crate::window_cmds::delete_other_windows(state, ctx),
        CommandAction::OtherWindow => crate::window_cmds::other_window(state, ctx),
        CommandAction::ExecuteExtendedCommand => {
            state.start_minibuffer_prompt("M-x ", "execute-extended-command");
            Ok(())
        },
    }
}

/// Every command of the baseline editor, registered under its kebab-case
/// name.
pub fn build_default_registry() -> (r: CommandRegistry) {
    let mut registry = CommandRegistry::new();

    registry.register(Command::motion("forward-char", CommandAction::ForwardChar));
    registry.register(Command::motion("backward-char", CommandAction::BackwardChar));
    registry.register(Command::motion("next-line", CommandAction::NextLine));
    registry.register(Command::motion("previous-line", CommandAction::PreviousLine));
    registry.register(Command::motion("move-beginning-of-line", CommandAction::MoveBeginningOfLine));
    registry.register(Command::motion("move-end-of-line", CommandAction::MoveEndOfLine));
    registry.register(Command::motion("beginning-of-buffer", CommandAction::BeginningOfBuffer));
    registry.register(Command::motion("end-of-buffer", CommandAction::EndOfBuffer));
    registry.register(Command::motion("forward-word", CommandAction::ForwardWord));
    registry.register(Command::motion("backward-word", CommandAction::BackwardWord));
    registry.register(Command::motion("scroll-up-command", CommandAction::ScrollUpCommand));
    registry.register(Command::motion("scroll-down-command", CommandAction::ScrollDownCommand));
    registry.register(Command::motion("recenter-top-bottom", CommandAction::RecenterTopBottom));
    registry.register(Command::motion("goto-line", CommandAction::GotoLine));
    registry.register(Command::mark("forward-char-shift", CommandAction::ForwardCharShift));
    registry.register(Command::mark("backward-char-shift", CommandAction::BackwardCharShift));
    registry.register(Command::mark("next-line-shift", CommandAction::NextLineShift));
    registry.register(Command::mark("previous-line-shift", CommandAction::PreviousLineShift));
    registry.register(Command::mark("forward-word-shift", CommandAction::ForwardWordShift));
    registry.register(Command::mark("backward-word-shift", CommandAction::BackwardWordShift));
    registry.register(
        Command::mark("move-beginning-of-line-shift", CommandAction::MoveBeginningOfLineShift),
    );
    registry.register(Command::mark("move-end-of-line-shift", CommandAction::MoveEndOfLineShift));
    registry.register(
        Command::mark("beginning-of-buffer-shift", CommandAction::BeginningOfBufferShift),
    );
    registry.register(Command::mark("end-of-buffer-shift", CommandAction::EndOfBufferShift));

    registry.register(Command::editing("self-insert-command", CommandAction::SelfInsertCommand));
    registry.register(Command::editing("delete-char", CommandAction::DeleteChar));
    registry.register(Command::editing("delete-backward-char", CommandAction::DeleteBackwardChar));
    registry.register(Command::new("newline", CommandAction::Newline));
    registry.register(Command::new("open-line", CommandAction::OpenLine));
    registry.register(Command::new("transpose-chars", CommandAction::TransposeChars));
    registry.register(Command::mark("set-mark-command", CommandAction::SetMarkCommand));
    registry.register(Command::mark("exchange-point-and-mark", CommandAction::ExchangePointAndMark));
    registry.register(Command::mark("mark-whole-buffer", CommandAction::MarkWholeBuffer));
    registry.register(Command::new("undo", CommandAction::Undo));
    registry.register(Command::new("redo", CommandAction::Redo));
    registry.register(Command::new("keyboard-quit", CommandAction::KeyboardQuit));
    registry.register(
        Command::new("spawn-cursors-at-word-matches", CommandAction::SpawnCursorsAtWordMatches),
    );
    registry.register(Command::new("clear-multiple-cursors", CommandAction::ClearMultipleCursors));

    registry.register(Command::kill("kill-line", CommandAction::KillLine));
    registry.register(Command::kill("kill-word", CommandAction::KillWord));
    registry.register(Command::kill("backward-kill-word", CommandAction::BackwardKillWord));
    registry.register(Command::kill("kill-region", CommandAction::KillRegion));
    registry.register(Command::new("copy-region-as-kill", CommandAction::CopyRegionAsKill));
    registry.register(Command::new("yank", CommandAction::Yank));
    registry.register(Command::new("yank-pop", CommandAction::YankPop));

    registry.register(Command::new("switch-to-buffer", CommandAction::SwitchToBuffer));
    registry.register(Command::new("kill-buffer", CommandAction::KillBuffer));
    registry.register(Command::new("list-buffers", CommandAction::ListBuffers));

    registry.register(Command::new("find-file", CommandAction::FindFile));
    registry.register(Command::new("save-buffer", CommandAction::SaveBuffer));
    registry.register(Command::new("write-file", CommandAction::WriteFile));
    registry.register(Command::new("exit", CommandAction::Exit));
    registry.register(
        Command::new("execute-extended-command", CommandAction::ExecuteExtendedCommand),
    );

    registry.register(Command::new("split-window-below", CommandAction::SplitWindowBelow));
    registry.register(Command::new("split-window-right", CommandAction::SplitWindowRight));
    registry.register(Command::new("delete-window", CommandAction::DeleteWindow));
    registry.register(Command::new("delete-other-windows", CommandAction::DeleteOtherWindows));
    registry.register(Command::new("other-window", CommandAction::OtherWindow));

    registry
}

/// How the exit confirmation answers one key.
pub open spec fn exit_confirmation_post(pre: EditorState, post: EditorState, key: KeyEvent) -> bool {
    (match key.key {
                Key::Char(c) => if c == 'y' || c == 'Y' {
                    post == (EditorState { should_quit: true, ..pre })
                } else if c == 'n' || c == 'N' {
                    ({
                        &&& post == (EditorState {
                            pending_exit: false,
                            message: post.message,
                            ..pre
                        })
                        &&& (post.message matches Some(m) && m@ == "Exit cancelled"@)
                    })
                } else {
                    post == pre
                },
                _ => post == pre,
            })
}

/// How the minibuffer answers one key while it is active.
pub open spec fn minibuffer_key_post(pre: EditorState, post: EditorState, key: KeyEvent) -> bool {
    &&& (!(key.key is Enter) ==> post.buffers == pre.buffers && post.windows
                == pre.windows && post.kill_ring == pre.kill_ring && post.pending_io == pre.pending_io)
    &&& ({
                let plain = !key.modifiers.ctrl && !key.modifiers.meta && !key.modifiers.super_key;
                let plain_no_shift = plain && !key.modifiers.shift;
                let ctrl_only = key.modifiers.ctrl && !key.modifiers.meta
                    && !key.modifiers.super_key && !key.modifiers.shift;
                let mb = pre.minibuffer;
                match key.key {
                    Key::Enter => plain_no_shift && mb.state
                        == crate::minibuffer::MinibufferState::Inactive ==> post
                        == pre,
                    Key::Escape => ({
                        &&& post.minibuffer.state
                            == crate::minibuffer::MinibufferState::Inactive
                        &&& post.minibuffer.content@ == Seq::<char>::empty()
                        &&& post.minibuffer.callback is None
                        &&& (post.message matches Some(m) && m@ == "Quit"@)
                    }),
                    Key::Backspace => plain_no_shift ==> ({
                        &&& (mb.cursor_pos > 0 ==> post.minibuffer.content@
                            == mb.content@.take(mb.cursor_pos - 1) + mb.content@.skip(
                            mb.cursor_pos as int,
                        ) && post.minibuffer.cursor_pos == mb.cursor_pos - 1)
                        &&& (mb.cursor_pos == 0 ==> post.minibuffer.content@ == mb.content@)
                        &&& post.minibuffer.state == mb.state
                        &&& post.minibuffer.callback == mb.callback
                    }),
                    Key::Delete => plain_no_shift ==> ({
                        &&& (mb.cursor_pos < mb.content@.len() ==> post.minibuffer.content@
                            == mb.content@.take(mb.cursor_pos as int) + mb.content@.skip(
                            mb.cursor_pos + 1,
                        ))
                        &&& (mb.cursor_pos >= mb.content@.len() ==> post.minibuffer.content@
                            == mb.content@)
                        &&& post.minibuffer.cursor_pos == mb.cursor_pos
                        &&& post.minibuffer.state == mb.state
                        &&& post.minibuffer.callback == mb.callback
                    }),
                    Key::Right => plain_no_shift ==> post.minibuffer == (Minibuffer {
                        cursor_pos: if mb.cursor_pos < mb.content@.len() {
                            (mb.cursor_pos + 1) as usize
                        } else {
                            mb.cursor_pos
                        },
                        ..mb
                    }),
                    Key::Left => plain_no_shift ==> post.minibuffer == (Minibuffer {
                        cursor_pos: if mb.cursor_pos > 0 {
                            (mb.cursor_pos - 1) as usize
                        } else {
                            0
                        },
                        ..mb
                    }),
                    Key::Home => plain_no_shift ==> post.minibuffer == (Minibuffer {
                        cursor_pos: 0,
                        ..mb
                    }),
                    Key::End => plain_no_shift ==> post.minibuffer == (Minibuffer {
                        cursor_pos: mb.content@.len() as usize,
                        ..mb
                    }),
                    Key::Up => plain_no_shift && mb.history@.len() == 0 ==> post.minibuffer
                        == mb,
                    Key::Down => plain_no_shift && mb.history_index is None
                        ==> post.minibuffer == mb,
                    Key::Char(c) => if ctrl_only && c == 'g' {
                        ({
                            &&& post.minibuffer.state
                                == crate::minibuffer::MinibufferState::Inactive
                            &&& post.minibuffer.content@ == Seq::<char>::empty()
                            &&& post.minibuffer.callback is None
                            &&& (post.message matches Some(m) && m@ == "Quit"@)
                        })
                    } else if plain {
                        mb.content@.len() < usize::MAX && mb.wf() ==> ({
                            &&& post.minibuffer.content@ == mb.content@.take(
                                mb.cursor_pos as int,
                            ) + seq![c] + mb.content@.skip(mb.cursor_pos as int)
                            &&& post.minibuffer.cursor_pos == mb.cursor_pos + 1
                            &&& post.minibuffer.state == mb.state
                            &&& post.minibuffer.callback == mb.callback
                        })
                    } else {
                        true
                    },
                    _ => post == pre,
                }
            })
}

impl EditorState {
    /// Run the named command with a drained prefix argument, surface its
    /// error as a message, and run the post-command hook.
    pub fn execute_command(&mut self, name: &'static str)
        requires
            old(self).wf(),
        ensures
            final(self).wf(),
            final(self).last_command matches Some(n) && n@ == name@,
            crate::registry::cmd_lookup(old(self).command_registry.commands_seq(), name@)
                is None ==> (final(self).message matches Some(m) && m@ == "Command not found: "@
                + name@),
            crate::registry::cmd_lookup(old(self).command_registry.commands_seq(), name@)
                matches Some(cmd) ==> exists|mid: EditorState, rr: CommandResult|
                {
                    &&& #[trigger] action_post(
                        cmd.action,
                        drained(*old(self)),
                        mid,
                        ctx_for(*old(self)),
                        rr,
                    )
                    &&& (match rr {
                        Result::Ok(u) => final(self).message == mid.message,
                        Result::Err(e) => if e is Cancelled {
                            final(self).message == mid.message
                        } else {
                            final(self).message matches Some(m) && m@
                                == crate::registry::err_view(e)
                        },
                    })
                },
    {
        let prefix = self.prefix_arg;
        self.prefix_arg = PrefixArg::Unset;
        let ctx = CommandContext { prefix_arg: prefix, last_command: self.last_command };
        let found: Option<Command> = match self.command_registry.get(name) {
            Some(c) => Some(*c),
            None => None,
        };
        let result: CommandResult = match found {
            Some(cmd) => dispatch_action(self, cmd.action, &ctx),
            None => Err(CommandError::NotFound(name.to_owned())),
        };
        let ghost mid = *self;
        let ghost rr = result;
        match result {
            Err(e) => {
                if !matches!(e, CommandError::Cancelled) {
                    self.message = Some(e.message());
                }
            },
            Ok(()) => {},
        }
        let ghost surfaced = self.message;
        self.post_command(name);
        proof {
            assert(self.message == surfaced);
            let lk = crate::registry::cmd_lookup(
                old(self).command_registry.commands_seq(),
                name@,
            );
            if lk is Some {
                let cmd = lk.unwrap();
                assert(action_post(cmd.action, drained(*old(self)), mid, ctx_for(*old(self)), rr));
            }
        }
    }

    /// The hook after every command: break kill chains after non-kills,
    /// deactivate marks after mark-destroying commands, remember the command,
    /// commit the undo group, and keep the cursor on screen.
    pub fn post_command(&mut self, name: &'static str)
        requires
            old(self).wf(),
        ensures
            final(self).wf(),
            final(self).last_command matches Some(n) && n@ == name@,
            final(self).message == old(self).message,
            ({
                match crate::registry::cmd_lookup(old(self).command_registry.commands_seq(), name@) {
                    Some(cmd) => {
                        &&& (!cmd.is_kill ==> !final(self).kill_ring.spec_last_was_kill())
                        &&& (!cmd.preserves_mark && old(self).current_target() is Some ==> (forall|
                            w: int,
                        |
                            0 <= w < final(self).window_cursors().len() ==> !(#[trigger] final(self).window_cursors()[w]).mark_active))
                    },
                    None => true,
                }
            }),
            old(self).current_target() matches Some(i)
                ==> final(self).buffers.buffers@[i].undo_tree.model()
                == crate::undo::break_coalesce_m(old(self).buffers.buffers@[i].undo_tree.model()),
    {
        let flags: Option<Command> = match self.command_registry.get(name) {
            Some(c) => Some(*c),
            None => None,
        };
        match flags {
            Some(cmd) => {
                if !cmd.is_kill {
                    self.last_was_kill = false;
                    self.kill_ring.set_last_was_kill(false);
                }
                if !cmd.preserves_mark {
                    match self.edit_target() {
                        Some((_, mut cs)) => {
                            cs.deactivate_all_marks();
                            self.put_cursors(cs);
                        },
                        None => {},
                    }
                }
            },
            None => {},
        }
        proof {
            assert(self.buffers == old(self).buffers);
            assert(self.windows.current == old(self).windows.current);
            assert(self.windows.windows_seq().len() == old(self).windows.windows_seq().len());
            if old(self).windows.current < old(self).windows.windows_seq().len() {
                assert(self.windows.windows_seq()[self.windows.current as int].buffer_id == old(
                    self,
                ).windows.windows_seq()[old(self).windows.current as int].buffer_id);
            }
        }
        self.last_command = Some(name);
        match self.windows.current_buffer_id() {
            Some(bid) => {
                match self.buffers.index_of(bid) {
                    Some(i) => {
                        let ghost pre = self.buffers.buffers@;
                        let b = &mut self.buffers.buffers[i];
                        b.add_undo_boundary();
                        proof {
                            lemma_buffers_wf_update(
                                pre,
                                i as int,
                                self.buffers.buffers@[i as int],
                                self.buffers.next_id,
                            );
                        }
                    },
                    None => {},
                }
            },
            None => {},
        }
        proof {
            if old(self).current_target() is Some {
                let gi = old(self).current_target().unwrap();
                assert(self.buffers.buffers@[gi].undo_tree.model()
                    == crate::undo::break_coalesce_m(
                    old(self).buffers.buffers@[gi].undo_tree.model(),
                ));
            }
        }
        self.ensure_cursor_visible();
    }

    /// Scroll the current window so the primary cursor's line is visible.
    pub fn ensure_cursor_visible(&mut self)
        requires
            old(self).wf(),
        ensures
            final(self).wf(),
            final(self).last_command == old(self).last_command,
            final(self).kill_ring == old(self).kill_ring,
            final(self).buffers == old(self).buffers,
            final(self).message == old(self).message,
            final(self).minibuffer == old(self).minibuffer,
            final(self).windows.current == old(self).windows.current,
            final(self).windows.windows_seq().len() == old(self).windows.windows_seq().len(),
            forall|w: int|
                0 <= w < old(self).windows.windows_seq().len() ==> (#[trigger] final(self).windows.windows_seq()[w]).cursors == old(self).windows.windows_seq()[w].cursors,
    {
        let (cursor_line, scroll_line, height) = match self.edit_target() {
            Some((i, cs)) => {
                let b = &self.buffers.buffers[i];
                let pos = char_to_position(&b.text, cs.primary.position);
                match self.windows.current() {
                    Some(w) => (pos.line, w.scroll_line, w.height as usize),
                    None => {
                        return ;
                    },
                }
            },
            None => {
                return ;
            },
        };
        let visible_end = if height >= 1 && scroll_line <= usize::MAX - (height - 1) {
            scroll_line + (height - 1)
        } else {
            usize::MAX
        };
        if cursor_line < scroll_line {
            self.windows.set_current_scroll_line(cursor_line);
        } else if cursor_line >= visible_end {
            let back = if height >= 2 {
                height - 2
            } else {
                0
            };
            let target = if cursor_line >= back {
                cursor_line - back
            } else {
                0
            };
            self.windows.set_current_scroll_line(target);
        }
    }

    /// Feed one key through the pipeline: exit confirmation, then the
    /// minibuffer, then the resolver and command dispatch.
    pub fn handle_key(&mut self, key: KeyEvent)
        requires
            old(self).wf(),
        ensures
            final(self).wf(),
            old(self).pending_exit ==> exit_confirmation_post(*old(self), *final(self), key),
            !old(self).pending_exit && old(self).minibuffer.state
                != crate::minibuffer::MinibufferState::Inactive ==> minibuffer_key_post(
                *old(self),
                *final(self),
                key,
            ),
            !old(self).pending_exit && old(self).minibuffer.state
                == crate::minibuffer::MinibufferState::Inactive ==> ({
                let keys = old(self).key_resolver.pending().push(key);
                match crate::resolver::walk_m(old(self).keymap, keys) {
                    crate::resolver::WalkM::Complete(name) => final(self).last_command matches Some(
                        n,
                    ) && n@ == name,
                    crate::resolver::WalkM::Pending => (final(self).message matches Some(m) && m@
                        == crate::resolver::pending_display_m(keys))
                        && final(self).key_resolver.pending() == keys && final(self).buffers == old(self).buffers,
                    crate::resolver::WalkM::Nowhere => if keys.len() == 1
                        && key.spec_is_printable() {
                        final(self).last_command matches Some(n) && n@ == "self-insert-command"@
                    } else {
                        (final(self).message matches Some(m) && m@.len() >= 13 && m@.skip(
                            m@.len() - 13,
                        ) == " is undefined"@) && final(self).buffers == old(self).buffers
                    },
                }
            }),
    {
        if self.pending_exit {
            self.handle_exit_confirmation(key);
            return ;
        }
        if self.minibuffer.is_active() {
            self.handle_minibuffer_key(key);
            return ;
        }
        self.message = None;
        let mut resolver = crate::resolver::KeyResolver::new();
        std::mem::swap(&mut resolver, &mut self.key_resolver);
        let resolution = resolver.resolve(key, &self.keymap);
        std::mem::swap(&mut resolver, &mut self.key_resolver);
        match resolution {
            KeyResolution::Complete(command_name) => {
                self.execute_command(command_name);
            },
            KeyResolution::Prefix(display) => {
                self.message = Some(display);
            },
            KeyResolution::SelfInsert(c) => {
                match crate::editing::self_insert(self, c) {
                    Err(e) => {
                        self.message = Some(e.message());
                    },
                    Ok(()) => {},
                }
                self.post_command("self-insert-command");
            },
            KeyResolution::Unbound(keys) => {
                let mut text = String::new();
                let mut k: usize = 0;
                #[verifier::loop_isolation(false)]
                while k < keys.len()
                    invariant
                        k <= keys@.len(),
                    decreases keys@.len() - k,
                {
                    let d = keys[k].display_string();
                    text.append(d.as_str());
                    if k + 1 < keys.len() {
                        text.append(" ");
                    }
                    k += 1;
                }
                let ghost t0 = text@;
                text.append(" is undefined");
                proof {
                    reveal_strlit(" is undefined");
                    assert(" is undefined"@.len() == 13);
                    assert(text@.skip(text@.len() - 13) =~= " is undefined"@);
                }
                self.message = Some(text);
            },
        }
    }

    /// Answer the exit confirmation: `y` quits, `n` stays.
    pub fn handle_exit_confirmation(&mut self, key: KeyEvent)
        requires
            old(self).wf(),
        ensures
            final(self).wf(),
            exit_confirmation_post(*old(self), *final(self), key),
    {
        match key.key {
            Key::Char(c) => {
                if c == 'y' || c == 'Y' {
                    self.should_quit = true;
                } else if c == 'n' || c == 'N' {
                    self.pending_exit = false;
                    self.message = Some("Exit cancelled".to_owned());
                }
            },
            _ => {},
        }
    }

    /// Route a key to the minibuffer while it is active.
    pub fn handle_minibuffer_key(&mut self, key: KeyEvent)
        requires
            old(self).wf(),
        ensures
            final(self).wf(),
            minibuffer_key_post(*old(self), *final(self), key),
    {
        let plain = !key.modifiers.ctrl && !key.modifiers.meta && !key.modifiers.super_key;
        let plain_no_shift = plain && !key.modifiers.shift;
        let ctrl_only = key.modifiers.ctrl && !key.modifiers.meta && !key.modifiers.super_key
            && !key.modifiers.shift;
        match key.key {
            Key::Enter => {
                if plain_no_shift {
                    match self.minibuffer.submit() {
                        Some((content, callback)) => {
                            self.handle_minibuffer_callback(callback, content);
                        },
                        None => {},
                    }
                }
            },
            Key::Escape => {
                self.minibuffer.clear();
                self.message = Some("Quit".to_owned());
            },
            Key::Backspace => {
                if plain_no_shift {
                    self.minibuffer.delete_backward();
                }
            },
            Key::Delete => {
                if plain_no_shift {
                    self.minibuffer.delete_forward();
                }
            },
            Key::Right => {
                if plain_no_shift {
                    self.minibuffer.move_forward();
                }
            },
            Key::Left => {
                if plain_no_shift {
                    self.minibuffer.move_backward();
                }
            },
            Key::Home => {
                if plain_no_shift {
                    self.minibuffer.move_to_start();
                }
            },
            Key::End => {
                if plain_no_shift {
                    self.minibuffer.move_to_end();
                }
            },
            Key::Up => {
                if plain_no_shift {
                    self.minibuffer.history_prev();
                }
            },
            Key::Down => {
                if plain_no_shift {
                    self.minibuffer.history_next();
                }
            },
            Key::Char(c) => {
                if ctrl_only {
                    if c == 'g' {
                        self.minibuffer.clear();
                        self.message = Some("Quit".to_owned());
                    } else if c == 'd' {
                        self.minibuffer.delete_forward();
                    } else if c == 'f' {
                        self.minibuffer.move_forward();
                    } else if c == 'b' {
                        self.minibuffer.move_backward();
                    } else if c == 'a' {
                        self.minibuffer.move_to_start();
                    } else if c == 'e' {
                        self.minibuffer.move_to_end();
                    } else if c == 'p' {
                        self.minibuffer.history_prev();
                    } else if c == 'n' {
                        self.minibuffer.history_next();
                    }
                } else if plain {
                    self.minibuffer.insert_char(c);
                }
            },
            _ => {},
        }
    }

    /// Act on submitted minibuffer input according to its callback name.
    pub fn handle_minibuffer_callback(&mut self, callback: &'static str, content: String)
        requires
            old(self).wf(),
        ensures
            final(self).wf(),
            callback@ == "find-file-complete"@ ==> ({
                &&& final(self).pending_io@.len() == old(self).pending_io@.len() + 1
                &&& (final(self).pending_io@.last() matches IoRequest::OpenFile { path } && path@
                    == content@)
                &&& final(self).pending_io@.take(old(self).pending_io@.len() as int) == old(
                    self,
                ).pending_io@
            }),
            (callback@ == "save-buffer-complete"@ || callback@ == "write-file-complete"@) && old(
                self,
            ).current_target() is Some ==> ({
                let i = old(self).current_target().unwrap();
                &&& final(self).pending_io@.len() == old(self).pending_io@.len() + 1
                &&& (final(self).pending_io@.last() matches IoRequest::SaveFile {
                    buffer,
                    path,
                    text,
                } && buffer == old(self).buffers.buffers@[i].id && path@ == content@ && text@
                    == old(self).target_text())
                &&& final(self).pending_io@.take(old(self).pending_io@.len() as int) == old(
                    self,
                ).pending_io@
            }),
            callback@ == "switch-to-buffer-complete"@ && old(self).windows.windows_seq().len()
                > 0 && old(self).buffers.next_id < u64::MAX ==> exists|i: int|
                0 <= i < final(self).buffers.buffers@.len() && (#[trigger] final(self).buffers.buffers@[i]).name@ == content@ && final(self).buffers.buffers@[i].id
                    == final(self).windows.windows_seq()[final(self).windows.current as int].buffer_id,
            callback@ == "execute-extended-command"@ ==> ({
                &&& (crate::registry::cmd_lookup(
                    old(self).command_registry.commands_seq(),
                    content@,
                ) is None ==> (final(self).message matches Some(m) && m@ == "Unknown command: "@
                    + content@))
                &&& (crate::registry::cmd_lookup(
                    old(self).command_registry.commands_seq(),
                    content@,
                ) matches Some(cmd) ==> (final(self).last_command matches Some(n) && n@
                    == cmd.name@))
            }),
    {
        proof {
            reveal_strlit("find-file-complete");
            reveal_strlit("save-buffer-complete");
            reveal_strlit("write-file-complete");
            reveal_strlit("switch-to-buffer-complete");
            reveal_strlit("kill-buffer-complete");
            reveal_strlit("execute-extended-command");
            assert("find-file-complete"@.len() == 18);
            assert("save-buffer-complete"@.len() == 20);
            assert("write-file-complete"@.len() == 19);
            assert("switch-to-buffer-complete"@.len() == 25);
            assert("kill-buffer-complete"@.len() == 20);
            assert("execute-extended-command"@.len() == 24);
        }
        if str_eq(callback, "find-file-complete") {
            self.pending_io.push(IoRequest::OpenFile { path: content });
            proof {
                assert(self.pending_io@.take(old(self).pending_io@.len() as int) =~= old(
                    self,
                ).pending_io@);
            }
        } else if str_eq(callback, "save-buffer-complete") || str_eq(
            callback,
            "write-file-complete",
        ) {
            match self.windows.current_buffer_id() {
                Some(bid) => {
                    match self.buffers.index_of(bid) {
                        Some(i) => {
                            let text = crate::rope::rope_to_string(&self.buffers.buffers[i].text);
                            let id = self.buffers.buffers[i].id;
                            proof {
                                assert(old(self).current_target() == Some(i as int));
                                assert(text@ == old(self).target_text());
                                assert(id == old(self).buffers.buffers@[i as int].id);
                            }
                            self.pending_io.push(
                                IoRequest::SaveFile { buffer: id, path: content, text },
                            );
                            proof {
                                assert(self.pending_io@.take(old(self).pending_io@.len() as int)
                                    =~= old(self).pending_io@);
                            }
                        },
                        None => {},
                    }
                },
                None => {},
            }
        } else if str_eq(callback, "switch-to-buffer-complete") {
            self.switch_buffer(content.as_str());
        } else if str_eq(callback, "kill-buffer-complete") {
            match self.buffers.find_by_name(content.as_str()) {
                Some(id) => {
                    let was_modified = match self.buffers.get(id) {
                        Some(b) => b.modified,
                        None => false,
                    };
                    if was_modified {
                        self.message = Some("Buffer has unsaved changes".to_owned());
                    } else {
                        let _ = self.buffers.kill(id);
                        if self.buffers.is_empty() {
                            let _ = self.buffers.ensure_scratch();
                        }
                        match self.buffers.current_id() {
                            Some(new_id) => {
                                self.windows.set_current_buffer(new_id);
                                self.reclamp_current();
                            },
                            None => {},
                        }
                    }
                },
                None => {},
            }
        } else if str_eq(callback, "execute-extended-command") {
            let found: Option<Command> = match self.command_registry.get(content.as_str()) {
                Some(c) => Some(*c),
                None => None,
            };
            proof {
                assert(found == crate::registry::cmd_lookup(
                    old(self).command_registry.commands_seq(),
                    content@,
                ));
            }
            match found {
                Some(cmd) => {
                    self.execute_command(cmd.name);
                },
                None => {
                    self.message = Some("Unknown command: ".to_owned().concat(content.as_str()));
                },
            }
        }
    }
}

} // verus!
