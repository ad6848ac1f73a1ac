//! The minibuffer: a one-line prompt with char-addressed editing, history,
//! and a callback name describing what to do with the submitted text.
use vstd::prelude::*;
use vstd::string::StrSliceExecFns;
use vstd::string::StringExecFns;

use crate::kill_ring::strings_view;

verus! {

/// Whether the minibuffer is idle, showing a prompt, or reading input.
#[derive(Debug, Clone, Copy, PartialEq, Eq, Structural)]
pub enum MinibufferState {
    Inactive,
    Prompt,
    Reading,
}

/// The minibuffer. `cursor_pos` is a char index into `content`.
#[derive(Debug)]
pub struct Minibuffer {
    pub state: MinibufferState,
    pub prompt: String,
    pub content: String,
    pub cursor_pos: usize,
    pub callback: Option<&'static str>,
    pub history: Vec<String>,
    pub history_index: Option<usize>,
}

impl Minibuffer {
    /// The cursor sits inside the content and the history index inside the
    /// history.
    pub open spec fn wf(self) -> bool {
        &&& self.cursor_pos <= self.content@.len()
        &&& (self.history_index matches Some(i) ==> i < self.history@.len())
    }

    pub fn new() -> (r: Minibuffer)
        ensures
            r.state == MinibufferState::Inactive,
            r.prompt@ == Seq::<char>::empty(),
            r.content@ == Seq::<char>::empty(),
            r.cursor_pos == 0,
            r.callback is None,
            r.history@.len() == 0,
            r.history_index is None,
            r.wf(),
    {
        Minibuffer {
            state: MinibufferState::Inactive,
            prompt: String::new(),
            content: String::new(),
            cursor_pos: 0,
            callback: None,
            history: Vec::new(),
            history_index: None,
        }
    }

    /// Open the minibuffer with `prompt`; `callback` names what submission
    /// will mean.
    pub fn start_prompt(&mut self, prompt: &str, callback: &'static str)
        ensures
            final(self).state == MinibufferState::Prompt,
            final(self).prompt@ == prompt@,
            final(self).content@ == Seq::<char>::empty(),
            final(self).cursor_pos == 0,
            final(self).callback matches Some(c) && c@ == callback@,
            final(self).history@ == old(self).history@,
            final(self).history_index is None,
            old(self).wf() ==> final(self).wf(),
    {
        self.state = MinibufferState::Prompt;
        self.prompt = prompt.to_owned();
        self.content = String::new();
        self.cursor_pos = 0;
        self.callback = Some(callback);
        self.history_index = None;
    }

    /// Insert `c` at the cursor.
    pub fn insert_char(&mut self, c: char)
        ensures
            old(self).wf() && old(self).content@.len() < usize::MAX ==> {
                &&& final(self).content@ == old(self).content@.take(
                    old(self).cursor_pos as int,
                ) + seq![c] + old(self).content@.skip(old(self).cursor_pos as int)
                &&& final(self).cursor_pos == old(self).cursor_pos + 1
                &&& final(self).wf()
            },
            old(self).wf() ==> final(self).wf(),
            final(self).state == old(self).state,
            final(self).prompt@ == old(self).prompt@,
            final(self).callback == old(self).callback,
            final(self).history@ == old(self).history@,
            final(self).history_index == old(self).history_index,
    {
        let len = self.content.as_str().unicode_len();
        if self.cursor_pos <= len && self.cursor_pos < usize::MAX {
            let head = self.content.as_str().substring_char(0, self.cursor_pos).to_owned();
            let tail = self.content.as_str().substring_char(self.cursor_pos, len).to_owned();
            let mid = crate::chars::char_to_string(c);
            let joined = head.concat(mid.as_str()).concat(tail.as_str());
            proof {
                assert(old(self).content@.take(old(self).cursor_pos as int) =~= old(
                    self,
                ).content@.subrange(0, old(self).cursor_pos as int));
                assert(old(self).content@.skip(old(self).cursor_pos as int) =~= old(
                    self,
                ).content@.subrange(old(self).cursor_pos as int, old(self).content@.len() as int));
            }
            self.content = joined;
            self.cursor_pos = self.cursor_pos + 1;
        }
    }

    /// Delete the char before the cursor, if any.
    pub fn delete_backward(&mut self)
        ensures
            old(self).wf() ==> {
                &&& (old(self).cursor_pos > 0 ==> final(self).content@ == old(self).content@.take(
                    old(self).cursor_pos - 1,
                ) + old(self).content@.skip(old(self).cursor_pos as int) && final(self).cursor_pos
                    == old(self).cursor_pos - 1)
                &&& (old(self).cursor_pos == 0 ==> final(self).content@ == old(self).content@
                    && final(self).cursor_pos == 0)
                &&& final(self).wf()
            },
            final(self).state == old(self).state,
            final(self).prompt@ == old(self).prompt@,
            final(self).callback == old(self).callback,
            final(self).history@ == old(self).history@,
            final(self).history_index == old(self).history_index,
    {
        let len = self.content.as_str().unicode_len();
        if self.cursor_pos > 0 && self.cursor_pos <= len {
            let head = self.content.as_str().substring_char(0, self.cursor_pos - 1).to_owned();
            let tail = self.content.as_str().substring_char(self.cursor_pos, len).to_owned();
            let joined = head.concat(tail.as_str());
            proof {
                assert(old(self).content@.take(old(self).cursor_pos - 1) =~= old(
                    self,
                ).content@.subrange(0, old(self).cursor_pos - 1));
                assert(old(self).content@.skip(old(self).cursor_pos as int) =~= old(
                    self,
                ).content@.subrange(old(self).cursor_pos as int, old(self).content@.len() as int));
            }
            self.content = joined;
            self.cursor_pos = self.cursor_pos - 1;
        }
    }

    /// Delete the char at the cursor, if any.
    pub fn delete_forward(&mut self)
        ensures
            old(self).wf() ==> {
                &&& (old(self).cursor_pos < old(self).content@.len() ==> final(self).content@ == old(
                    self,
                ).content@.take(old(self).cursor_pos as int) + old(self).content@.skip(
                    old(self).cursor_pos + 1,
                ))
                &&& (old(self).cursor_pos >= old(self).content@.len() ==> final(self).content@
                    == old(self).content@)
                &&& final(self).cursor_pos == old(self).cursor_pos
                &&& final(self).wf()
            },
            final(self).state == old(self).state,
            final(self).prompt@ == old(self).prompt@,
            final(self).callback == old(self).callback,
            final(self).history@ == old(self).history@,
            final(self).history_index == old(self).history_index,
    {
        let len = self.content.as_str().unicode_len();
        if self.cursor_pos < len {
            let head = self.content.as_str().substring_char(0, self.cursor_pos).to_owned();
            let tail = self.content.as_str().substring_char(self.cursor_pos + 1, len).to_owned();
            let joined = head.concat(tail.as_str());
            proof {
                assert(old(self).content@.take(old(self).cursor_pos as int) =~= old(
                    self,
                ).content@.subrange(0, old(self).cursor_pos as int));
                assert(old(self).content@.skip(old(self).cursor_pos + 1) =~= old(
                    self,
                ).content@.subrange(old(self).cursor_pos + 1, old(self).content@.len() as int));
            }
            self.content = joined;
        }
    }

    pub fn move_forward(&mut self)
        ensures
            *final(self) == (Minibuffer {
                cursor_pos: if old(self).cursor_pos < old(self).content@.len() {
                    (old(self).cursor_pos + 1) as usize
                } else {
                    old(self).cursor_pos
                },
                ..*old(self)
            }),
            old(self).wf() ==> final(self).wf(),
    {
        if self.cursor_pos < self.content.as_str().unicode_len() {
            self.cursor_pos = self.cursor_pos + 1;
        }
    }

    pub fn move_backward(&mut self)
        ensures
            *final(self) == (Minibuffer {
                cursor_pos: if old(self).cursor_pos > 0 {
                    (old(self).cursor_pos - 1) as usize
                } else {
                    0
                },
                ..*old(self)
            }),
            old(self).wf() ==> final(self).wf(),
    {
        if self.cursor_pos > 0 {
            self.cursor_pos = self.cursor_pos - 1;
        }
    }

    pub fn move_to_start(&mut self)
        ensures
            *final(self) == (Minibuffer { cursor_pos: 0, ..*old(self) }),
            old(self).wf() ==> final(self).wf(),
    {
        self.cursor_pos = 0;
    }

    pub fn move_to_end(&mut self)
        ensures
            *final(self) == (Minibuffer {
                cursor_pos: old(self).content@.len() as usize,
                ..*old(self)
            }),
            old(self).wf() ==> final(self).wf(),
    {
        self.cursor_pos = self.content.as_str().unicode_len();
    }

    /// Step back through the history, loading the entry into the content.
    pub fn history_prev(&mut self)
        ensures
            old(self).wf() ==> final(self).wf(),
            old(self).history@.len() == 0 ==> *final(self) == *old(self),
            old(self).wf() && old(self).history@.len() > 0 ==> match old(self).history_index {
                None => final(self).history_index == Some(
                    (old(self).history@.len() - 1) as usize,
                ) && final(self).content@ == old(self).history@[old(self).history@.len() - 1]@,
                Some(i) => if i == 0 {
                    *final(self) == *old(self)
                } else {
                    final(self).history_index == Some((i - 1) as usize) && final(self).content@
                        == old(self).history@[i - 1]@
                },
            },
            final(self).history@ == old(self).history@,
            final(self).state == old(self).state,
            final(self).prompt@ == old(self).prompt@,
            final(self).callback == old(self).callback,
    {
        if self.history.len() == 0 {
            return ;
        }
        let new_index: usize;
        match self.history_index {
            None => {
                new_index = self.history.len() - 1;
            },
            Some(i) => {
                if i == 0 {
                    return ;
                }
                if i >= self.history.len() {
                    return ;
                }
                new_index = i - 1;
            },
        }
        self.history_index = Some(new_index);
        self.content = self.history[new_index].clone();
        self.cursor_pos = self.content.as_str().unicode_len();
    }

    /// Step forward through the history; past the newest entry the content
    /// clears and the traversal ends.
    pub fn history_next(&mut self)
        ensures
            old(self).wf() ==> final(self).wf(),
            old(self).history_index is None ==> *final(self) == *old(self),
            old(self).wf() ==> match old(self).history_index {
                None => *final(self) == *old(self),
                Some(i) => if i + 1 >= old(self).history@.len() {
                    final(self).history_index is None && final(self).content@ == Seq::<
                        char,
                    >::empty() && final(self).cursor_pos == 0
                } else {
                    final(self).history_index == Some((i + 1) as usize) && final(self).content@
                        == old(self).history@[i + 1]@
                },
            },
            final(self).history@ == old(self).history@,
            final(self).state == old(self).state,
            final(self).prompt@ == old(self).prompt@,
            final(self).callback == old(self).callback,
    {
        match self.history_index {
            None => {},
            Some(i) => {
                let hlen = self.history.len();
                if i >= usize::MAX || i + 1 >= hlen {
                    self.history_index = None;
                    self.content = String::new();
                    self.cursor_pos = 0;
                } else {
                    self.history_index = Some(i + 1);
                    self.content = self.history[i + 1].clone();
                    self.cursor_pos = self.content.as_str().unicode_len();
                }
            },
        }
    }

    /// Submit the content: nonempty text is recorded in the history, the
    /// minibuffer closes, and the content is handed back with its callback.
    pub fn submit(&mut self) -> (r: Option<(String, &'static str)>)
        ensures
            old(self).state == MinibufferState::Inactive ==> r is None && *final(self) == *old(
                self,
            ),
            old(self).state != MinibufferState::Inactive ==> {
                &&& final(self).state == MinibufferState::Inactive
                &&& final(self).content@ == Seq::<char>::empty()
                &&& final(self).callback is None
                &&& final(self).cursor_pos == 0
                &&& (old(self).content@.len() > 0 ==> final(self).history@.len() == old(
                    self,
                ).history@.len() + 1 && strings_view(final(self).history@) == strings_view(
                    old(self).history@,
                ).push(old(self).content@))
                &&& (old(self).content@.len() == 0 ==> final(self).history@ == old(self).history@)
                &&& match (r, old(self).callback) {
                    (Some(pair), Some(cb)) => pair.0@ == old(self).content@ && pair.1@ == cb@,
                    (None, None) => true,
                    _ => false,
                }
            },
            old(self).wf() ==> final(self).wf(),
    {
        if matches!(self.state, MinibufferState::Inactive) {
            return None;
        }
        let mut content = String::new();
        std::mem::swap(&mut content, &mut self.content);
        let callback = self.callback;
        if content.as_str().unicode_len() > 0 {
            let ghost pre = self.history@;
            self.history.push(content.clone());
            proof {
                assert(strings_view(self.history@) =~= strings_view(pre).push(content@));
            }
        }
        self.clear();
        match callback {
            Some(cb) => Some((content, cb)),
            None => None,
        }
    }

    /// Close the minibuffer, clearing everything but the history.
    pub fn clear(&mut self)
        ensures
            final(self).state == MinibufferState::Inactive,
            final(self).prompt@ == Seq::<char>::empty(),
            final(self).content@ == Seq::<char>::empty(),
            final(self).cursor_pos == 0,
            final(self).callback is None,
            final(self).history_index is None,
            final(self).history@ == old(self).history@,
            final(self).wf(),
    {
        self.state = MinibufferState::Inactive;
        self.prompt = String::new();
        self.content = String::new();
        self.cursor_pos = 0;
        self.callback = None;
        self.history_index = None;
    }

    pub fn is_active(&self) -> (r: bool)
        ensures
            r == (self.state != MinibufferState::Inactive),
    {
        !matches!(self.state, MinibufferState::Inactive)
    }

    /// The prompt followed by the content, as shown in the echo area.
    pub fn display(&self) -> (r: String)
        ensures
            r@ == self.prompt@ + self.content@,
    {
        self.prompt.clone().concat(self.content.as_str())
    }

    /// The cursor's on-screen column: the prompt's chars plus the cursor's
    /// char offset, saturating at the integer limit.
    pub fn cursor_screen_pos(&self) -> (r: usize)
        ensures
            r == if self.prompt@.len() + self.cursor_pos <= usize::MAX {
                self.prompt@.len() + self.cursor_pos
            } else {
                usize::MAX as int
            },
    {
        let plen = self.prompt.as_str().unicode_len();
        if plen <= usize::MAX - self.cursor_pos {
            plen + self.cursor_pos
        } else {
            usize::MAX
        }
    }
}

} // verus!
