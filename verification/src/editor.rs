//! The editor state: the root object wiring buffers, windows, the minibuffer,
//! the kill ring, keymap, resolver, and registry into the key pipeline.
//!
//! File input and output never happen here: commands that need the disk
//! queue an `IoRequest`, the surrounding program performs it and reports back
//! through `finish_open_file`, `fail_open_file`, and `finish_save`.
use vstd::prelude::*;
use vstd::string::StringExecFns;

use crate::buffer::Buffer;
use crate::buffer::BufferId;
use crate::buffer::clamp_cursors_to;
use crate::buffer_mgr::BufferManager;
use crate::buffer_mgr::buf_index_of;
use crate::buffer_mgr::lemma_buffers_wf_update;
use crate::buffer_mgr::str_eq;
use crate::cursor::Cursor;
use crate::cursor::CursorSet;
use crate::default::default_keymap;
use crate::keymap::KeyMap;
use crate::kill_ring::KillRing;
use crate::minibuffer::Minibuffer;
use crate::registry::CommandRegistry;
use crate::registry::PrefixArg;
use crate::resolver::KeyResolver;
use crate::rope::rope_text;
use crate::window_mgr::WindowManager;

verus! {

/// Work only the surrounding program can do: reading and writing files.
#[derive(Debug)]
pub enum IoRequest {
    OpenFile { path: String },
    SaveFile { buffer: BufferId, path: String, text: String },
}

/// The whole editor.
#[derive(Debug)]
pub struct EditorState {
    pub buffers: BufferManager,
    pub windows: WindowManager,
    pub minibuffer: Minibuffer,
    pub kill_ring: KillRing,
    pub keymap: KeyMap,
    pub key_resolver: KeyResolver,
    pub command_registry: CommandRegistry,
    pub message: Option<String>,
    pub last_command: Option<&'static str>,
    pub last_was_kill: bool,
    pub prefix_arg: PrefixArg,
    pub should_quit: bool,
    pub pending_exit: bool,
    pub pending_io: Vec<IoRequest>,
}

impl EditorState {
    /// The index of the buffer the current window shows, if both exist.
    pub open spec fn current_target(self) -> Option<int> {
        if self.windows.current < self.windows.windows_seq().len() {
            buf_index_of(
                self.buffers.buffers@,
                self.windows.windows_seq()[self.windows.current as int].buffer_id,
            )
        } else {
            None
        }
    }

    /// The current window's buffer's text.
    pub open spec fn target_text(self) -> Seq<char> {
        rope_text(&self.buffers.buffers@[self.current_target().unwrap()].text)
    }

    /// The current window's cursors, pulled inside the buffer's text: what an
    /// editing command works on.
    pub open spec fn target_cursors(self) -> Seq<Cursor> {
        crate::buffer::clamp_seq(
            self.windows.windows_seq()[self.windows.current as int].cursors.all_seq(),
            self.target_text().len() as int,
        )
    }

    /// The current window's cursors as stored.
    pub open spec fn window_cursors(self) -> Seq<Cursor> {
        self.windows.windows_seq()[self.windows.current as int].cursors.all_seq()
    }

    /// The current window's buffer is read-only.
    pub open spec fn target_read_only(self) -> bool {
        match self.current_target() {
            Some(i) => self.buffers.buffers@[i].read_only,
            None => false,
        }
    }

    /// Every component is consistent.
    pub open spec fn wf(self) -> bool {
        &&& self.buffers.wf()
        &&& self.windows.wf()
        &&& self.kill_ring.wf()
        &&& self.minibuffer.wf()
        &&& self.keymap.wf()
    }

    /// A fresh editor: one window showing the scratch buffer, the default
    /// keymap and command registry.
    pub fn new() -> (r: EditorState)
        ensures
            r.wf(),
            !r.should_quit,
            !r.pending_exit,
            r.message is None,
    {
        let mut buffers = BufferManager::new();
        let scratch_id = buffers.ensure_scratch();
        let mut windows = WindowManager::new();
        let _ = windows.add(scratch_id);
        EditorState {
            buffers,
            windows,
            minibuffer: Minibuffer::new(),
            kill_ring: KillRing::new(60),
            keymap: default_keymap(),
            key_resolver: KeyResolver::new(),
            command_registry: crate::dispatch::build_default_registry(),
            message: None,
            last_command: None,
            last_was_kill: false,
            prefix_arg: PrefixArg::Unset,
            should_quit: false,
            pending_exit: false,
            pending_io: Vec::new(),
        }
    }

    /// A shared view of the buffer the current window shows.
    pub fn current_buffer(&self) -> (r: Option<&Buffer>)
        ensures
            match r {
                Some(b) => self.buffers.buffers@.contains(*b),
                None => true,
            },
    {
        match self.windows.current_buffer_id() {
            Some(id) => {
                match self.buffers.index_of(id) {
                    Some(i) => {
                        proof {
                            assert(self.buffers.buffers@.contains(self.buffers.buffers@[i as int]));
                        }
                        Some(&self.buffers.buffers[i])
                    },
                    None => None,
                }
            },
            None => None,
        }
    }

    /// A shared view of the current window.
    pub fn current_window(&self) -> (r: Option<&crate::window_mgr::Window>) {
        self.windows.current()
    }

    /// The current window's buffer index together with a copy of the window's
    /// cursors, pulled inside the buffer's text.
    pub fn edit_target(&self) -> (r: Option<(usize, CursorSet)>)
        ensures
            match r {
                Some(pair) => pair.0 < self.buffers.buffers@.len() && pair.1.bounded(
                    rope_text(&self.buffers.buffers@[pair.0 as int].text).len() as int,
                ) && self.windows.current < self.windows.windows_seq().len()
                    && self.buffers.buffers@[pair.0 as int].id == self.windows.windows_seq()[self.windows.current as int].buffer_id
                    && self.current_target() == Some(pair.0 as int)
                    && pair.1.all_seq() == self.target_cursors(),
                None => self.current_target() is None,
            },
    {
        match self.windows.current_buffer_id() {
            Some(bid) => {
                match self.buffers.index_of(bid) {
                    Some(i) => {
                        match self.windows.current_cursors() {
                            Some(mut cs) => {
                                let ghost pre = cs.all_seq();
                                let len = self.buffers.buffers[i].len_chars();
                                clamp_cursors_to(&mut cs, len);
                                proof {
                                    assert(cs.all_seq() =~= crate::buffer::clamp_seq(
                                        pre,
                                        len as int,
                                    )) by {
                                        assert forall|w: int| 0 <= w < pre.len() implies
                                            crate::buffer::clamp_seq(pre, len as int)[w]
                                            == cs.all_seq()[w] by {
                                            assert(crate::buffer::clamp_seq(pre, len as int)[w]
                                                == crate::buffer::clamp_cursor(pre[w], len as int));
                                        }
                                    }
                                }
                                Some((i, cs))
                            },
                            None => None,
                        }
                    },
                    None => None,
                }
            },
            None => None,
        }
    }

    /// Store `cs` as the current window's cursors.
    pub fn put_cursors(&mut self, cs: CursorSet)
        ensures
            final(self).buffers == old(self).buffers,
            final(self).windows.windows_seq().len() == old(self).windows.windows_seq().len(),
            final(self).windows.current == old(self).windows.current,
            final(self).windows.dims() == old(self).windows.dims(),
            old(self).windows.wf() ==> final(self).windows.wf(),
            final(self).minibuffer == old(self).minibuffer,
            final(self).kill_ring == old(self).kill_ring,
            final(self).keymap == old(self).keymap,
            final(self).message == old(self).message,
            final(self).last_command == old(self).last_command,
            final(self).prefix_arg == old(self).prefix_arg,
            final(self).should_quit == old(self).should_quit,
            final(self).pending_exit == old(self).pending_exit,
            final(self).command_registry == old(self).command_registry,
            final(self).key_resolver == old(self).key_resolver,
            final(self).pending_io == old(self).pending_io,
            final(self).last_was_kill == old(self).last_was_kill,
            old(self).windows.current < old(self).windows.windows_seq().len() ==> final(self).windows.windows_seq()[old(self).windows.current as int].cursors == cs,
            forall|w: int|
                0 <= w < old(self).windows.windows_seq().len() ==> (#[trigger] final(self).windows.windows_seq()[w]).buffer_id == old(self).windows.windows_seq()[w].buffer_id
                    && final(self).windows.windows_seq()[w].scroll_line == old(self).windows.windows_seq()[w].scroll_line,
    {
        self.windows.put_current_cursors(cs);
    }

    /// Open the minibuffer with `prompt`, remembering `callback`.
    pub fn start_minibuffer_prompt(&mut self, prompt: &str, callback: &'static str)
        ensures
            final(self).minibuffer.state == crate::minibuffer::MinibufferState::Prompt,
            final(self).minibuffer.prompt@ == prompt@,
            final(self).minibuffer.callback matches Some(cb) && cb@ == callback@,
            old(self).wf() ==> final(self).wf(),
            final(self).buffers == old(self).buffers,
            final(self).windows == old(self).windows,
    {
        self.minibuffer.start_prompt(prompt, callback);
    }

    /// Resize the frame; one line stays reserved for the echo area.
    pub fn set_dimensions(&mut self, width: u16, height: u16)
        requires
            old(self).wf(),
        ensures
            final(self).wf(),
            final(self).windows.dims() == (width, height),
    {
        self.windows.set_dimensions(width, height);
    }

    /// Open a buffer on already-read file contents, or switch to the buffer
    /// already visiting the path.
    pub fn finish_open_file(&mut self, path: &str, name: &str, content: &str)
        requires
            old(self).wf(),
        ensures
            final(self).wf(),
    {
        let n = self.buffers.buffers.len();
        let mut i: usize = 0;
        let mut existing: Option<BufferId> = None;
        while i < n
            invariant
                i <= n,
                n == self.buffers.buffers@.len(),
                *self == *old(self),
            decreases n - i,
        {
            let matches_path = match &self.buffers.buffers[i].file_path {
                Some(p) => str_eq(p.as_str(), path),
                None => false,
            };
            if matches_path {
                existing = Some(self.buffers.buffers[i].id);
                break ;
            }
            i += 1;
        }
        match existing {
            Some(id) => {
                let _ = self.buffers.set_current(id);
                self.windows.set_current_buffer(id);
            },
            None => {
                let mut buffer = Buffer::from_string(name, content);
                buffer.file_path = Some(path.to_owned());
                let id = self.buffers.add(buffer);
                let _ = self.buffers.set_current(id);
                self.windows.set_current_buffer(id);
            },
        }
        self.reclamp_current();
    }

    /// Report a failed file read.
    pub fn fail_open_file(&mut self, detail: &str)
        requires
            old(self).wf(),
        ensures
            final(self).wf(),
            final(self).message matches Some(m) && m@ == "Error opening file: "@ + detail@,
    {
        self.message = Some("Error opening file: ".to_owned().concat(detail));
    }

    /// Record the outcome of a requested save: on success the buffer takes
    /// the path and name and is clean again.
    pub fn finish_save(&mut self, buffer: BufferId, path: &str, name: &str, ok: bool)
        requires
            old(self).wf(),
        ensures
            final(self).wf(),
            !ok ==> (final(self).message matches Some(m) && m@ == "Error saving file"@),
            ok && buf_index_of(old(self).buffers.buffers@, buffer) is Some ==> ({
                let i = buf_index_of(old(self).buffers.buffers@, buffer).unwrap();
                &&& !final(self).buffers.buffers@[i].modified
                &&& final(self).buffers.buffers@[i].file_path matches Some(p) && p@ == path@
                &&& final(self).buffers.buffers@[i].name@ == name@
                &&& final(self).message matches Some(m) && m@ == "Wrote "@ + name@
            }),
    {
        if !ok {
            self.message = Some("Error saving file".to_owned());
            return ;
        }
        match self.buffers.index_of(buffer) {
            Some(i) => {
                let ghost pre = self.buffers.buffers@;
                let b = &mut self.buffers.buffers[i];
                b.file_path = Some(path.to_owned());
                b.name = name.to_owned();
                b.modified = false;
                proof {
                    lemma_buffers_wf_update(
                        pre,
                        i as int,
                        self.buffers.buffers@[i as int],
                        self.buffers.next_id,
                    );
                }
                self.message = Some("Wrote ".to_owned().concat(name));
                self.reclamp_current();
            },
            None => {},
        }
    }

    /// Switch the current window to the named buffer, creating an empty one
    /// under that name if none exists.
    pub fn switch_buffer(&mut self, name: &str)
        requires
            old(self).wf(),
        ensures
            final(self).wf(),
            final(self).windows.windows_seq().len() == old(self).windows.windows_seq().len(),
            final(self).windows.current == old(self).windows.current,
            old(self).windows.windows_seq().len() > 0 && old(self).buffers.next_id < u64::MAX
                ==> exists|i: int|
                0 <= i < final(self).buffers.buffers@.len() && (#[trigger] final(self).buffers.buffers@[i]).name@ == name@ && final(self).buffers.buffers@[i].id
                    == final(self).windows.windows_seq()[final(self).windows.current as int].buffer_id,
    {
        match self.buffers.find_by_name(name) {
            Some(id) => {
                proof {
                    crate::buffer_mgr::lemma_buf_index_named_names(
                        self.buffers.buffers@,
                        name@,
                    );
                }
                let ghost wi = crate::buffer_mgr::buf_index_named(
                    self.buffers.buffers@,
                    name@,
                ).unwrap();
                let _ = self.buffers.set_current(id);
                self.windows.set_current_buffer(id);
                proof {
                    if old(self).windows.windows_seq().len() > 0 {
                        assert(self.buffers.buffers@[wi].id == id);
                        assert(self.windows.windows_seq()[self.windows.current as int].buffer_id
                            == id);
                    }
                }
            },
            None => {
                let buffer = Buffer::new(name);
                let id = self.buffers.add(buffer);
                let ghost wi = self.buffers.buffers@.len() - 1;
                let _ = self.buffers.set_current(id);
                self.windows.set_current_buffer(id);
                proof {
                    if old(self).windows.windows_seq().len() > 0 && old(self).buffers.next_id
                        < u64::MAX {
                        assert(self.buffers.buffers@[wi] == self.buffers.buffers@.last());
                        assert(self.buffers.buffers@[wi].id == id);
                        assert(self.buffers.buffers@[wi].name@ == name@);
                        assert(self.windows.windows_seq()[self.windows.current as int].buffer_id
                            == id);
                    }
                }
            },
        }
        self.reclamp_current();
    }

    /// Pull the current window's cursors inside its (possibly new) buffer.
    pub(crate) fn reclamp_current(&mut self)
        requires
            old(self).buffers.wf(),
            old(self).windows.wf(),
        ensures
            final(self).buffers == old(self).buffers,
            final(self).windows.wf(),
            final(self).windows.windows_seq().len() == old(self).windows.windows_seq().len(),
            final(self).windows.current == old(self).windows.current,
            final(self).windows.dims() == old(self).windows.dims(),
            final(self).minibuffer == old(self).minibuffer,
            final(self).kill_ring == old(self).kill_ring,
            final(self).keymap == old(self).keymap,
            final(self).message == old(self).message,
            final(self).should_quit == old(self).should_quit,
            final(self).pending_exit == old(self).pending_exit,
            final(self).pending_io == old(self).pending_io,
            final(self).command_registry == old(self).command_registry,
            final(self).last_command == old(self).last_command,
            final(self).prefix_arg == old(self).prefix_arg,
            final(self).last_was_kill == old(self).last_was_kill,
            final(self).key_resolver == old(self).key_resolver,
            forall|w: int|
                0 <= w < old(self).windows.windows_seq().len() ==> (#[trigger] final(self).windows.windows_seq()[w]).buffer_id == old(self).windows.windows_seq()[w].buffer_id,
    {
        match self.edit_target() {
            Some((_, cs)) => {
                self.put_cursors(cs);
            },
            None => {},
        }
    }

    /// The file work commands have asked for since the last drain.
    pub fn take_io_requests(&mut self) -> (r: Vec<IoRequest>)
        ensures
            final(self).pending_io@.len() == 0,
            r@ == old(self).pending_io@,
            final(self).buffers == old(self).buffers,
            final(self).windows == old(self).windows,
            old(self).wf() ==> final(self).wf(),
    {
        let mut out: Vec<IoRequest> = Vec::new();
        std::mem::swap(&mut out, &mut self.pending_io);
        out
    }
}

} // verus!
