//! The undo history: a linear log of edit batches with character-level
//! coalescing, multi-cursor batching, and Emacs-style traversal where undoing
//! appends inverses to the log instead of popping it.
use vstd::prelude::*;
use vstd::string::StrSliceExecFns;
use vstd::string::StringExecFns;

use crate::chars::spec_word_boundary;
use crate::cursor::Cursor;
use crate::cursor::CursorSet;
use crate::position::CharOffset;

verus! {

/// A primitive reversible edit. A deletion stores the removed text so that
/// its inverse is the insertion of that text, and vice versa.
#[derive(Debug)]
pub enum Edit {
    Insert { position: CharOffset, text: String },
    Delete { position: CharOffset, text: String },
}

/// One undoable group: the edits of the group and the cursors as they stood
/// just before its first edit.
#[derive(Debug)]
pub struct UndoEntry {
    pub edits: Vec<Edit>,
    pub cursors_before: Option<CursorSet>,
}

/// What kind of run the pending batch is currently coalescing.
#[derive(Debug, Clone, Copy, PartialEq, Eq, Structural)]
pub enum CoalesceMode {
    Insertion,
    Deletion,
    Off,
}

/// An edit as the buffer must apply it when undoing: an insertion carries the
/// text, a deletion only the count of chars to remove.
#[derive(Debug)]
pub enum UndoEdit {
    Insert { position: CharOffset, text: String },
    Delete { position: CharOffset, len: usize },
}

/// The outcome of an undo step.
#[derive(Debug)]
pub enum UndoResult {
    Apply { edits: Vec<UndoEdit>, restore_cursors: Option<CursorSet> },
    Nothing,
}

/// The mathematical value of an `Edit`.
#[verifier::ext_equal]
pub struct EditM {
    pub is_insert: bool,
    pub pos: int,
    pub text: Seq<char>,
}

/// The mathematical value of an `UndoEntry`.
#[verifier::ext_equal]
pub struct EntryM {
    pub edits: Seq<EditM>,
    pub cursors: Option<Seq<Cursor>>,
}

/// The mathematical value of the whole history.
#[verifier::ext_equal]
pub struct TreeM {
    pub entries: Seq<EntryM>,
    pub undo_index: Option<int>,
    pub pending: Seq<EditM>,
    pub pending_cursors: Option<Seq<Cursor>>,
    pub mode: CoalesceMode,
    pub last_insert_end: Option<int>,
    pub last_delete_pos: Option<int>,
    pub max_entries: int,
    pub batch_depth: int,
}

pub open spec fn edit_m(e: Edit) -> EditM {
    match e {
        Edit::Insert { position, text } => EditM {
            is_insert: true,
            pos: position.0 as int,
            text: text@,
        },
        Edit::Delete { position, text } => EditM {
            is_insert: false,
            pos: position.0 as int,
            text: text@,
        },
    }
}

pub open spec fn edits_m(v: Seq<Edit>) -> Seq<EditM> {
    v.map_values(|e: Edit| edit_m(e))
}

pub open spec fn cursors_m(c: Option<CursorSet>) -> Option<Seq<Cursor>> {
    match c {
        Some(cs) => Some(cs.all_seq()),
        None => None,
    }
}

pub open spec fn entry_m(e: UndoEntry) -> EntryM {
    EntryM { edits: edits_m(e.edits@), cursors: cursors_m(e.cursors_before) }
}

pub open spec fn entries_m(v: Seq<UndoEntry>) -> Seq<EntryM> {
    v.map_values(|e: UndoEntry| entry_m(e))
}

/// The inverse of an edit: swap insertion and deletion.
pub open spec fn edit_inverse_m(e: EditM) -> EditM {
    EditM { is_insert: !e.is_insert, ..e }
}

/// The inverse of an edit group: each edit inverted, in reverse order.
pub open spec fn edits_inverse_m(es: Seq<EditM>) -> Seq<EditM> {
    es.reverse().map_values(|e: EditM| edit_inverse_m(e))
}

/// Some character of `t` is a word boundary.
pub open spec fn text_has_boundary(t: Seq<char>) -> bool {
    exists|i: int| 0 <= i < t.len() && spec_word_boundary(t[i])
}

/// Commit the pending batch as a new entry, clear the coalescing run, and
/// drop the oldest entries when the log has outgrown `max_entries`.
pub open spec fn flush_m(m: TreeM) -> TreeM {
    if m.pending.len() == 0 {
        m
    } else {
        let pushed = m.entries.push(EntryM { edits: m.pending, cursors: m.pending_cursors });
        let removed: int = if pushed.len() > m.max_entries {
            pushed.len() - m.max_entries
        } else {
            0
        };
        TreeM {
            entries: pushed.skip(removed),
            undo_index: match m.undo_index {
                Some(i) => Some(
                    if i >= removed {
                        i - removed
                    } else {
                        0
                    },
                ),
                None => None,
            },
            pending: Seq::empty(),
            pending_cursors: None,
            mode: CoalesceMode::Off,
            ..m
        }
    }
}

/// Flush and forget the coalescing anchors: the next edit starts fresh.
pub open spec fn break_coalesce_m(m: TreeM) -> TreeM {
    TreeM {
        mode: CoalesceMode::Off,
        last_insert_end: None,
        last_delete_pos: None,
        ..flush_m(m)
    }
}

/// A single-char insertion extends the pending run when it continues at the
/// run's end and neither it nor the run's last char is a word boundary.
pub open spec fn should_coalesce_insert_m(m: TreeM, pos: int, text: Seq<char>) -> bool {
    &&& m.mode == CoalesceMode::Insertion
    &&& m.last_insert_end == Some(pos)
    &&& text.len() == 1
    &&& !spec_word_boundary(text[0])
    &&& (m.pending.len() > 0 && m.pending.last().is_insert && m.pending.last().text.len() > 0
        ==> !spec_word_boundary(m.pending.last().text.last()))
}

/// A single-char deletion extends the pending run when it is adjacent to the
/// last deletion (backspace or forward delete) and not a word boundary.
pub open spec fn should_coalesce_delete_m(m: TreeM, pos: int, text: Seq<char>) -> bool {
    &&& m.mode == CoalesceMode::Deletion
    &&& text.len() == 1
    &&& (m.last_delete_pos == Some(pos + 1) || m.last_delete_pos == Some(pos))
    &&& !spec_word_boundary(text[0])
}

/// The history after `record_insert(pos, text)`.
pub open spec fn record_insert_m(m: TreeM, pos: int, text: Seq<char>) -> TreeM {
    let m0 = TreeM { undo_index: None, ..m };
    if m.batch_depth > 0 {
        TreeM {
            pending: m0.pending.push(EditM { is_insert: true, pos, text }),
            ..m0
        }
    } else if should_coalesce_insert_m(m0, pos, text) && m0.pending.len() > 0
        && m0.pending.last().is_insert {
        TreeM {
            pending: m0.pending.update(
                m0.pending.len() - 1,
                EditM { text: m0.pending.last().text + text, ..m0.pending.last() },
            ),
            last_insert_end: Some(pos + text.len()),
            ..m0
        }
    } else {
        let f = flush_m(m0);
        TreeM {
            pending: f.pending.push(EditM { is_insert: true, pos, text }),
            mode: CoalesceMode::Insertion,
            last_insert_end: Some(pos + text.len()),
            last_delete_pos: None,
            ..f
        }
    }
}

/// The history after `record_delete(pos, text)`.
pub open spec fn record_delete_m(m: TreeM, pos: int, text: Seq<char>) -> TreeM {
    let m0 = TreeM { undo_index: None, ..m };
    if m.batch_depth > 0 {
        TreeM {
            pending: m0.pending.push(EditM { is_insert: false, pos, text }),
            ..m0
        }
    } else if should_coalesce_delete_m(m0, pos, text) && m0.pending.len() > 0 && !m0.pending.last().is_insert {
        let last = m0.pending.last();
        let merged = if pos < last.pos {
            EditM { is_insert: false, pos, text: text + last.text }
        } else {
            EditM { is_insert: false, pos: last.pos, text: last.text + text }
        };
        TreeM {
            pending: m0.pending.update(m0.pending.len() - 1, merged),
            last_delete_pos: Some(pos),
            ..m0
        }
    } else {
        let f = flush_m(m0);
        TreeM {
            pending: f.pending.push(EditM { is_insert: false, pos, text }),
            mode: CoalesceMode::Deletion,
            last_delete_pos: Some(pos),
            last_insert_end: None,
            ..f
        }
    }
}

#[derive(Debug)]
pub struct UndoTree {
    entries: Vec<UndoEntry>,
    undo_index: Option<usize>,
    pending_edits: Vec<Edit>,
    pending_cursors: Option<CursorSet>,
    coalesce_mode: CoalesceMode,
    last_insert_end: Option<CharOffset>,
    last_delete_pos: Option<CharOffset>,
    max_entries: usize,
    batch_depth: usize,
}

impl UndoTree {
    /// The history's mathematical value.
    pub closed spec fn model(self) -> TreeM {
        TreeM {
            entries: entries_m(self.entries@),
            undo_index: match self.undo_index {
                Some(i) => Some(i as int),
                None => None,
            },
            pending: edits_m(self.pending_edits@),
            pending_cursors: cursors_m(self.pending_cursors),
            mode: self.coalesce_mode,
            last_insert_end: match self.last_insert_end {
                Some(p) => Some(p.0 as int),
                None => None,
            },
            last_delete_pos: match self.last_delete_pos {
                Some(p) => Some(p.0 as int),
                None => None,
            },
            max_entries: self.max_entries as int,
            batch_depth: self.batch_depth as int,
        }
    }

    /// The empty history for an initial `TreeM`.
    pub open spec fn initial_m(max_entries: int) -> TreeM {
        TreeM {
            entries: Seq::empty(),
            undo_index: None,
            pending: Seq::empty(),
            pending_cursors: None,
            mode: CoalesceMode::Off,
            last_insert_end: None,
            last_delete_pos: None,
            max_entries,
            batch_depth: 0,
        }
    }

    pub fn new(max_entries: usize) -> (r: UndoTree)
        ensures
            r.model() == Self::initial_m(max_entries as int),
    {
        let r = UndoTree {
            entries: Vec::new(),
            undo_index: None,
            pending_edits: Vec::new(),
            pending_cursors: None,
            coalesce_mode: CoalesceMode::Off,
            last_insert_end: None,
            last_delete_pos: None,
            max_entries,
            batch_depth: 0,
        };
        proof {
            assert(entries_m(Seq::<UndoEntry>::empty()) =~= Seq::<EntryM>::empty());
            assert(edits_m(Seq::<Edit>::empty()) =~= Seq::<EditM>::empty());
            assert(r.model() =~= Self::initial_m(max_entries as int));
        }
        r
    }

    /// Open a multi-cursor batch: recorded edits accumulate until the
    /// matching `end_batch`.
    pub fn begin_batch(&mut self)
        requires
            old(self).model().batch_depth < usize::MAX,
        ensures
            final(self).model() == (TreeM {
                batch_depth: old(self).model().batch_depth + 1,
                ..old(self).model()
            }),
    {
        self.batch_depth = self.batch_depth + 1;
        proof {
            assert(self.model() =~= TreeM {
                batch_depth: old(self).model().batch_depth + 1,
                ..old(self).model()
            });
        }
    }

    /// Remember the cursors as they stood before the group's first edit; only
    /// the first call per group takes effect.
    pub fn set_cursors_before(&mut self, cursors: CursorSet)
        ensures
            final(self).model() == if old(self).model().pending_cursors is None {
                TreeM { pending_cursors: Some(cursors.all_seq()), ..old(self).model() }
            } else {
                old(self).model()
            },
    {
        if self.pending_cursors.is_none() {
            self.pending_cursors = Some(cursors);
            proof {
                assert(self.model() =~= TreeM {
                    pending_cursors: Some(cursors.all_seq()),
                    ..old(self).model()
                });
            }
        } else {
            proof {
                assert(self.model() =~= old(self).model());
            }
        }
    }

    /// Commit the pending batch as one entry and garbage-collect the log.
    fn flush_pending(&mut self)
        ensures
            final(self).model() == flush_m(old(self).model()),
    {
        if self.pending_edits.len() == 0 {
            proof {
                assert(self.model() =~= flush_m(old(self).model()));
            }
            return ;
        }
        let mut edits: Vec<Edit> = Vec::new();
        std::mem::swap(&mut edits, &mut self.pending_edits);
        let mut cursors: Option<CursorSet> = None;
        std::mem::swap(&mut cursors, &mut self.pending_cursors);
        let entry = UndoEntry { edits, cursors_before: cursors };
        self.entries.push(entry);
        self.coalesce_mode = CoalesceMode::Off;
        if self.entries.len() > self.max_entries {
            let remove_count = self.entries.len() - self.max_entries;
            let tail = self.entries.split_off(remove_count);
            self.entries = tail;
            if let Some(idx) = self.undo_index {
                self.undo_index = Some(if idx >= remove_count {
                    idx - remove_count
                } else {
                    0
                });
            }
        }
        proof {
            let m = old(self).model();
            let pushed = m.entries.push(EntryM { edits: m.pending, cursors: m.pending_cursors });
            assert(entries_m(old(self).entries@.push(entry)) =~= pushed);
            if pushed.len() > m.max_entries {
                assert(entries_m(old(self).entries@.push(entry).skip(
                    pushed.len() - m.max_entries,
                )) =~= pushed.skip(pushed.len() - m.max_entries));
            }
            assert(edits_m(Seq::<Edit>::empty()) =~= Seq::<EditM>::empty());
            assert(self.model() =~= flush_m(old(self).model()));
        }
    }

    /// Commit the pending batch and end the current coalescing run: the next
    /// insertion or deletion starts a fresh undo group.
    pub fn break_coalesce(&mut self)
        ensures
            final(self).model() == break_coalesce_m(old(self).model()),
    {
        self.flush_pending();
        self.coalesce_mode = CoalesceMode::Off;
        self.last_insert_end = None;
        self.last_delete_pos = None;
        proof {
            assert(self.model() =~= break_coalesce_m(old(self).model()));
        }
    }

    /// An undo boundary: everything recorded before it undoes separately from
    /// everything after.
    pub fn add_boundary(&mut self)
        ensures
            final(self).model() == break_coalesce_m(old(self).model()),
    {
        self.break_coalesce();
    }

    /// Whether an undo step would apply anything.
    pub fn can_undo(&self) -> (r: bool)
        ensures
            r == {
                let idx = match self.model().undo_index {
                    Some(i) => i,
                    None => self.model().entries.len() as int,
                };
                idx > 0 || self.model().pending.len() > 0
            },
    {
        let idx = match self.undo_index {
            Some(i) => i,
            None => self.entries.len(),
        };
        idx > 0 || self.pending_edits.len() > 0
    }

    /// Redo is traversal of the same log, so it is possible exactly when undo
    /// is.
    pub fn can_redo(&self) -> (r: bool)
        ensures
            r == {
                let idx = match self.model().undo_index {
                    Some(i) => i,
                    None => self.model().entries.len() as int,
                };
                idx > 0 || self.model().pending.len() > 0
            },
    {
        self.can_undo()
    }

    /// Forget the whole history.
    pub fn clear(&mut self)
        ensures
            final(self).model() == Self::initial_m(old(self).model().max_entries),
    {
        self.entries.clear();
        self.undo_index = None;
        self.pending_edits.clear();
        self.pending_cursors = None;
        self.coalesce_mode = CoalesceMode::Off;
        self.last_insert_end = None;
        self.last_delete_pos = None;
        self.batch_depth = 0;
        proof {
            assert(entries_m(Seq::<UndoEntry>::empty()) =~= Seq::<EntryM>::empty());
            assert(edits_m(Seq::<Edit>::empty()) =~= Seq::<EditM>::empty());
            assert(self.model() =~= Self::initial_m(old(self).model().max_entries));
        }
    }
}


impl UndoTree {
    /// `undo_index`, when set, points into the entry log.
    pub open spec fn wf_m(m: TreeM) -> bool {
        match m.undo_index {
            Some(i) => 0 <= i <= m.entries.len(),
            None => true,
        }
    }

    fn should_coalesce_insert(&self, position: CharOffset, text: &String) -> (r: bool)
        ensures
            r == should_coalesce_insert_m(self.model(), position.0 as int, text@),
    {
        if !matches!(self.coalesce_mode, CoalesceMode::Insertion) {
            return false;
        }
        match self.last_insert_end {
            Some(e) => {
                if e.0 != position.0 {
                    return false;
                }
            },
            None => {
                return false;
            },
        }
        if text.as_str().unicode_len() != 1 {
            return false;
        }
        if crate::chars::is_word_boundary_char(text.as_str().get_char(0)) {
            return false;
        }
        let n = self.pending_edits.len();
        if n > 0 {
            proof {
                assert(self.model().pending.last() == edit_m(self.pending_edits@[n - 1]));
            }
            match &self.pending_edits[n - 1] {
                Edit::Insert { text: pending_text, .. } => {
                    let plen = pending_text.as_str().unicode_len();
                    if plen > 0 {
                        if crate::chars::is_word_boundary_char(
                            pending_text.as_str().get_char(plen - 1),
                        ) {
                            return false;
                        }
                    }
                },
                _ => {},
            }
        }
        true
    }

    fn should_coalesce_delete(&self, position: CharOffset, text: &String) -> (r: bool)
        ensures
            r == should_coalesce_delete_m(self.model(), position.0 as int, text@),
    {
        if !matches!(self.coalesce_mode, CoalesceMode::Deletion) {
            return false;
        }
        if text.as_str().unicode_len() != 1 {
            return false;
        }
        let matches_anchor = match self.last_delete_pos {
            Some(lp) => (position.0 < usize::MAX && lp.0 == position.0 + 1) || lp.0 == position.0,
            None => false,
        };
        if !matches_anchor {
            return false;
        }
        !crate::chars::is_word_boundary_char(text.as_str().get_char(0))
    }

    /// Record an insertion of `text` at `position`. Single-char insertions
    /// that continue the current run coalesce into one pending edit; anything
    /// else commits the run and starts a new one. Inside a batch the edit
    /// only accumulates.
    pub fn record_insert(&mut self, position: CharOffset, text: String)
        requires
            position.0 + text@.len() <= usize::MAX,
        ensures
            final(self).model() == record_insert_m(old(self).model(), position.0 as int, text@),
            Self::wf_m(old(self).model()) ==> Self::wf_m(final(self).model()),
    {
        self.undo_index = None;
        let ghost m0 = self.model();
        let text_len = text.as_str().unicode_len();
        if self.batch_depth > 0 {
            self.pending_edits.push(Edit::Insert { position, text });
            proof {
                assert(edits_m(self.pending_edits@) =~= m0.pending.push(
                    EditM { is_insert: true, pos: position.0 as int, text: text@ },
                ));
                assert(self.model() =~= record_insert_m(old(self).model(), position.0 as int, text@));
            }
            return ;
        }
        if self.should_coalesce_insert(position, &text) {
            let n = self.pending_edits.len();
            if n > 0 {
                let is_ins = matches!(&self.pending_edits[n - 1], Edit::Insert { .. });
                if is_ins {
                    let last = match self.pending_edits.pop() {
                        Some(e) => e,
                        None => {
                            proof {
                                assert(false);
                            }
                            Edit::Insert { position, text: String::new() }
                        },
                    };
                    match last {
                        Edit::Insert { position: p0, text: t0 } => {
                            let merged = t0.concat(text.as_str());
                            self.pending_edits.push(Edit::Insert { position: p0, text: merged });
                            self.last_insert_end = Some(CharOffset(position.0 + text_len));
                            proof {
                                assert(edits_m(self.pending_edits@) =~= m0.pending.update(
                                    m0.pending.len() - 1,
                                    EditM { text: m0.pending.last().text + text@, ..m0.pending.last() },
                                ));
                                assert(self.model() =~= record_insert_m(
                                    old(self).model(),
                                    position.0 as int,
                                    text@,
                                ));
                            }
                            return ;
                        },
                        _ => {
                            proof {
                                assert(false);
                            }
                        },
                    }
                }
            }
        }
        self.flush_pending();
        let ghost f = flush_m(m0);
        self.pending_edits.push(Edit::Insert { position, text });
        self.coalesce_mode = CoalesceMode::Insertion;
        self.last_insert_end = Some(CharOffset(position.0 + text_len));
        self.last_delete_pos = None;
        proof {
            assert(edits_m(self.pending_edits@) =~= f.pending.push(
                EditM { is_insert: true, pos: position.0 as int, text: text@ },
            ));
            assert(self.model() =~= record_insert_m(old(self).model(), position.0 as int, text@));
        }
    }

    /// Record a deletion of `text` at `position`. Adjacent single-char
    /// deletions coalesce: a backspace run grows the pending text leftwards, a
    /// forward-delete run rightwards.
    pub fn record_delete(&mut self, position: CharOffset, text: String)
        ensures
            final(self).model() == record_delete_m(old(self).model(), position.0 as int, text@),
            Self::wf_m(old(self).model()) ==> Self::wf_m(final(self).model()),
    {
        self.undo_index = None;
        let ghost m0 = self.model();
        if self.batch_depth > 0 {
            self.pending_edits.push(Edit::Delete { position, text });
            proof {
                assert(edits_m(self.pending_edits@) =~= m0.pending.push(
                    EditM { is_insert: false, pos: position.0 as int, text: text@ },
                ));
                assert(self.model() =~= record_delete_m(old(self).model(), position.0 as int, text@));
            }
            return ;
        }
        if self.should_coalesce_delete(position, &text) {
            let n = self.pending_edits.len();
            if n > 0 {
                let is_del = matches!(&self.pending_edits[n - 1], Edit::Delete { .. });
                if is_del {
                    let last = match self.pending_edits.pop() {
                        Some(e) => e,
                        None => {
                            proof {
                                assert(false);
                            }
                            Edit::Delete { position, text: String::new() }
                        },
                    };
                    match last {
                        Edit::Delete { position: p0, text: t0 } => {
                            if position.0 < p0.0 {
                                let merged = text.concat(t0.as_str());
                                self.pending_edits.push(
                                    Edit::Delete { position, text: merged },
                                );
                            } else {
                                let merged = t0.concat(text.as_str());
                                self.pending_edits.push(
                                    Edit::Delete { position: p0, text: merged },
                                );
                            }
                            self.last_delete_pos = Some(position);
                            proof {
                                let lastm = m0.pending.last();
                                let mergedm = if (position.0 as int) < lastm.pos {
                                    EditM { is_insert: false, pos: position.0 as int, text: text@ + lastm.text }
                                } else {
                                    EditM { is_insert: false, pos: lastm.pos, text: lastm.text + text@ }
                                };
                                assert(edits_m(self.pending_edits@) =~= m0.pending.update(
                                    m0.pending.len() - 1,
                                    mergedm,
                                ));
                                assert(self.model() =~= record_delete_m(
                                    old(self).model(),
                                    position.0 as int,
                                    text@,
                                ));
                            }
                            return ;
                        },
                        _ => {
                            proof {
                                assert(false);
                            }
                        },
                    }
                }
            }
        }
        self.flush_pending();
        let ghost f = flush_m(m0);
        self.pending_edits.push(Edit::Delete { position, text });
        self.coalesce_mode = CoalesceMode::Deletion;
        self.last_delete_pos = Some(position);
        self.last_insert_end = None;
        proof {
            assert(edits_m(self.pending_edits@) =~= f.pending.push(
                EditM { is_insert: false, pos: position.0 as int, text: text@ },
            ));
            assert(self.model() =~= record_delete_m(old(self).model(), position.0 as int, text@));
        }
    }
}


/// `x` inserted before the first element whose position is not smaller.
pub open spec fn insert_asc_edit(s: Seq<EditM>, x: EditM) -> Seq<EditM>
    decreases s.len(),
{
    if s.len() == 0 {
        seq![x]
    } else if x.pos <= s[0].pos {
        seq![x] + s
    } else {
        seq![s[0]] + insert_asc_edit(s.drop_first(), x)
    }
}

/// The edits sorted by position, low to high.
pub open spec fn sort_asc_edits(s: Seq<EditM>) -> Seq<EditM>
    decreases s.len(),
{
    if s.len() == 0 {
        Seq::empty()
    } else {
        insert_asc_edit(sort_asc_edits(s.drop_first()), s[0])
    }
}

pub open spec fn all_inserts(s: Seq<EditM>) -> bool {
    forall|i: int| 0 <= i < s.len() ==> (#[trigger] s[i]).is_insert
}

pub open spec fn all_deletes(s: Seq<EditM>) -> bool {
    forall|i: int| 0 <= i < s.len() ==> !(#[trigger] s[i]).is_insert
}

pub open spec fn none_boundary(s: Seq<EditM>) -> bool {
    forall|i: int| 0 <= i < s.len() ==> !text_has_boundary((#[trigger] s[i]).text)
}

/// The total length of the first `i` texts.
pub open spec fn lens_sum(s: Seq<EditM>, i: int) -> int
    decreases i,
{
    if i <= 0 {
        0
    } else {
        lens_sum(s, i - 1) + s[i - 1].text.len()
    }
}

/// Position-sorted insert batches pair up when each pending insert lands
/// exactly at the end of the matching earlier insert, shifted by all earlier
/// inserts of the group.
pub open spec fn insert_pairs_ok(ls: Seq<EditM>, ps: Seq<EditM>) -> bool {
    forall|i: int|
        0 <= i < ls.len() ==> (#[trigger] ps[i]).pos == ls[i].pos + ls[i].text.len() + lens_sum(
            ls,
            i,
        )
}

/// A pending delete continues the matching earlier delete either as a
/// backspace (ending where the earlier one began) or in place.
pub open spec fn delete_pair_ok(l: EditM, p: EditM) -> bool {
    p.pos + p.text.len() == l.pos || p.pos == l.pos
}

pub open spec fn delete_pairs_ok(ls: Seq<EditM>, ps: Seq<EditM>) -> bool {
    forall|i: int| 0 <= i < ls.len() ==> delete_pair_ok(ls[i], #[trigger] ps[i])
}

pub open spec fn merged_insert(l: EditM, p: EditM) -> EditM {
    EditM { is_insert: true, pos: l.pos, text: l.text + p.text }
}

pub open spec fn merged_delete(l: EditM, p: EditM) -> EditM {
    if p.pos + p.text.len() == l.pos {
        EditM { is_insert: false, pos: p.pos, text: p.text + l.text }
    } else {
        EditM { is_insert: false, pos: l.pos, text: l.text + p.text }
    }
}

/// Whether the pending batch coalesces with the last committed entry: same
/// cardinality, uniformly inserts or uniformly deletes, no text containing a
/// word boundary, and pairwise adjacency after sorting both by position.
pub open spec fn batch_coalesce_ok(last: Seq<EditM>, pend: Seq<EditM>) -> bool {
    let ls = sort_asc_edits(last);
    let ps = sort_asc_edits(pend);
    &&& last.len() == pend.len()
    &&& ((all_inserts(ls) && all_inserts(ps)) || (all_deletes(ls) && all_deletes(ps)))
    &&& none_boundary(ls)
    &&& none_boundary(ps)
    &&& (all_inserts(ls) && all_inserts(ps) ==> insert_pairs_ok(ls, ps))
    &&& (!(all_inserts(ls) && all_inserts(ps)) ==> delete_pairs_ok(ls, ps))
}

/// The merged edit group replacing the last entry when a batch coalesces:
/// each sorted pair merged, kept in descending position order so the group
/// still applies (and undoes) in recording order.
pub open spec fn batch_merged(last: Seq<EditM>, pend: Seq<EditM>) -> Seq<EditM> {
    let ls = sort_asc_edits(last);
    let ps = sort_asc_edits(pend);
    if all_inserts(ls) && all_inserts(ps) {
        Seq::new(ls.len(), |i: int| merged_insert(ls[i], ps[i])).reverse()
    } else {
        Seq::new(ls.len(), |i: int| merged_delete(ls[i], ps[i])).reverse()
    }
}

/// The history after `end_batch`: closing the outermost batch either merges
/// the accumulated edits into the last entry or commits them as a new one.
pub open spec fn end_batch_m(m: TreeM) -> TreeM {
    if m.batch_depth <= 0 {
        m
    } else if m.batch_depth > 1 {
        TreeM { batch_depth: m.batch_depth - 1, ..m }
    } else {
        let m1 = TreeM { batch_depth: 0, ..m };
        if m1.pending.len() == 0 {
            m1
        } else if m1.entries.len() > 0 && batch_coalesce_ok(m1.entries.last().edits, m1.pending) {
            TreeM {
                entries: m1.entries.update(
                    m1.entries.len() - 1,
                    EntryM {
                        edits: batch_merged(m1.entries.last().edits, m1.pending),
                        cursors: m1.entries.last().cursors,
                    },
                ),
                pending: Seq::empty(),
                pending_cursors: None,
                ..m1
            }
        } else {
            flush_m(m1)
        }
    }
}

proof fn lemma_insert_asc_len(s: Seq<EditM>, x: EditM)
    ensures
        insert_asc_edit(s, x).len() == s.len() + 1,
    decreases s.len(),
{
    if s.len() > 0 && !(x.pos <= s[0].pos) {
        lemma_insert_asc_len(s.drop_first(), x);
    }
}

pub proof fn lemma_sort_asc_len(s: Seq<EditM>)
    ensures
        sort_asc_edits(s).len() == s.len(),
    decreases s.len(),
{
    if s.len() > 0 {
        lemma_sort_asc_len(s.drop_first());
        lemma_insert_asc_len(sort_asc_edits(s.drop_first()), s[0]);
    }
}

proof fn lemma_insert_asc_at(s: Seq<EditM>, x: EditM, i: int)
    requires
        0 <= i <= s.len(),
        forall|j: int| 0 <= j < i ==> s[j].pos < x.pos,
        i < s.len() ==> x.pos <= s[i].pos,
    ensures
        insert_asc_edit(s, x) == s.take(i) + seq![x] + s.skip(i),
    decreases i,
{
    if i == 0 {
        assert(insert_asc_edit(s, x) =~= s.take(0) + seq![x] + s.skip(0));
    } else {
        lemma_insert_asc_at(s.drop_first(), x, i - 1);
        assert(s.drop_first().take(i - 1) =~= s.take(i).drop_first());
        assert(s.drop_first().skip(i - 1) =~= s.skip(i));
        assert(seq![s[0]] + (s.drop_first().take(i - 1) + seq![x] + s.drop_first().skip(i - 1))
            =~= s.take(i) + seq![x] + s.skip(i));
    }
}

impl UndoTree {
    /// Close a batch opened by `begin_batch`; closing the outermost batch
    /// commits or merges the accumulated edits as a single undo group.
    pub fn end_batch(&mut self)
        ensures
            final(self).model() == end_batch_m(old(self).model()),
            Self::wf_m(old(self).model()) ==> Self::wf_m(final(self).model()),
    {
        if self.batch_depth == 0 {
            return ;
        }
        self.batch_depth = self.batch_depth - 1;
        if self.batch_depth > 0 {
            proof {
                assert(self.model() =~= end_batch_m(old(self).model()));
            }
            return ;
        }
        if self.pending_edits.len() == 0 {
            proof {
                assert(self.model() =~= end_batch_m(old(self).model()));
            }
            return ;
        }
        let ghost m1 = TreeM { batch_depth: 0, ..old(self).model() };
        if self.entries.len() > 0 {
            let n = self.entries.len();
            proof {
                assert(m1.entries.last() == entry_m(self.entries@[n - 1]));
            }
            let ls = sort_edits_by_pos(&self.entries[n - 1].edits);
            let ps = sort_edits_by_pos(&self.pending_edits);
            proof {
                lemma_sort_asc_len(edits_m(self.entries@[n - 1].edits@));
                lemma_sort_asc_len(edits_m(self.pending_edits@));
            }
            if check_batch_pair(&ls, &ps, self.entries[n - 1].edits.len(), self.pending_edits.len()) {
                let merged = merge_sorted_batches(&ls, &ps);
                let last_entry = match self.entries.pop() {
                    Some(e) => e,
                    None => {
                        proof {
                            assert(false);
                        }
                        UndoEntry { edits: Vec::new(), cursors_before: None }
                    },
                };
                self.entries.push(
                    UndoEntry { edits: merged, cursors_before: last_entry.cursors_before },
                );
                self.pending_edits.clear();
                self.pending_cursors = None;
                proof {
                    assert(entries_m(self.entries@) =~= m1.entries.update(
                        m1.entries.len() - 1,
                        EntryM {
                            edits: batch_merged(m1.entries.last().edits, m1.pending),
                            cursors: m1.entries.last().cursors,
                        },
                    ));
                    assert(edits_m(Seq::<Edit>::empty()) =~= Seq::<EditM>::empty());
                    assert(self.model() =~= end_batch_m(old(self).model()));
                }
                return ;
            }
        }
        self.flush_pending();
        proof {
            assert(self.model() =~= end_batch_m(old(self).model()));
        }
    }
}

/// The position of an edit.
fn edit_pos(e: &Edit) -> (r: usize)
    ensures
        r as int == edit_m(*e).pos,
{
    match e {
        Edit::Insert { position, .. } => position.0,
        Edit::Delete { position, .. } => position.0,
    }
}

/// The char count of an edit's text.
fn edit_text_len(e: &Edit) -> (r: usize)
    ensures
        r as int == edit_m(*e).text.len(),
{
    match e {
        Edit::Insert { text, .. } => text.as_str().unicode_len(),
        Edit::Delete { text, .. } => text.as_str().unicode_len(),
    }
}

/// A value-equal copy of an edit.
fn clone_edit(e: &Edit) -> (r: Edit)
    ensures
        edit_m(r) == edit_m(*e),
{
    match e {
        Edit::Insert { position, text } => Edit::Insert { position: *position, text: text.clone() },
        Edit::Delete { position, text } => Edit::Delete { position: *position, text: text.clone() },
    }
}

/// Insert a copy of `x` into `v` before the first element whose position is
/// not smaller.
fn insert_asc_exec(v: &mut Vec<Edit>, x: Edit)
    ensures
        edits_m(final(v)@) == insert_asc_edit(edits_m(old(v)@), edit_m(x)),
{
    let xp = edit_pos(&x);
    let mut i: usize = 0;
    while i < v.len() && edit_pos(&v[i]) < xp
        invariant
            i <= v.len(),
            *v == *old(v),
            xp as int == edit_m(x).pos,
            forall|j: int| 0 <= j < i ==> edits_m(v@)[j].pos < edit_m(x).pos,
        decreases v.len() - i,
    {
        i += 1;
    }
    proof {
        lemma_insert_asc_at(edits_m(v@), edit_m(x), i as int);
    }
    v.insert(i, x);
    proof {
        assert(edits_m(v@) =~= edits_m(old(v)@).take(i as int) + seq![edit_m(x)] + edits_m(
            old(v)@,
        ).skip(i as int));
    }
}

/// The edits of `v` sorted by position, low to high.
fn sort_edits_by_pos(v: &Vec<Edit>) -> (r: Vec<Edit>)
    ensures
        edits_m(r@) == sort_asc_edits(edits_m(v@)),
{
    let mut r: Vec<Edit> = Vec::new();
    let mut k: usize = v.len();
    proof {
        assert(edits_m(v@).skip(k as int) =~= Seq::<EditM>::empty());
        assert(edits_m(r@) =~= Seq::<EditM>::empty());
    }
    while k > 0
        invariant
            k <= v.len(),
            edits_m(r@) == sort_asc_edits(edits_m(v@).skip(k as int)),
        decreases k,
    {
        k = k - 1;
        insert_asc_exec(&mut r, clone_edit(&v[k]));
        proof {
            assert(edits_m(v@).skip(k as int).drop_first() =~= edits_m(v@).skip(k as int + 1));
            assert(edits_m(v@).skip(k as int)[0] == edit_m(v@[k as int]));
        }
    }
    proof {
        assert(edits_m(v@).skip(0) =~= edits_m(v@));
    }
    r
}

/// Whether the text of `s` contains a word-boundary character.
fn string_has_boundary(s: &String) -> (r: bool)
    ensures
        r == text_has_boundary(s@),
{
    let n = s.as_str().unicode_len();
    let mut i: usize = 0;
    while i < n
        invariant
            i <= n,
            n == s@.len(),
            forall|j: int| 0 <= j < i ==> !spec_word_boundary(s@[j]),
        decreases n - i,
    {
        if crate::chars::is_word_boundary_char(s.as_str().get_char(i)) {
            return true;
        }
        i += 1;
    }
    false
}

/// Whether an edit's text contains a word-boundary character.
fn edit_has_boundary(e: &Edit) -> (r: bool)
    ensures
        r == text_has_boundary(edit_m(*e).text),
{
    match e {
        Edit::Insert { text, .. } => string_has_boundary(text),
        Edit::Delete { text, .. } => string_has_boundary(text),
    }
}

fn edit_is_insert(e: &Edit) -> (r: bool)
    ensures
        r == edit_m(*e).is_insert,
{
    matches!(e, Edit::Insert { .. })
}


/// Whether every edit of `v` is an insertion.
fn edits_all_inserts(v: &Vec<Edit>) -> (r: bool)
    ensures
        r == all_inserts(edits_m(v@)),
{
    let mut i: usize = 0;
    while i < v.len()
        invariant
            i <= v.len(),
            forall|j: int| 0 <= j < i ==> (#[trigger] edits_m(v@)[j]).is_insert,
        decreases v.len() - i,
    {
        proof {
            assert(edits_m(v@)[i as int] == edit_m(v@[i as int]));
        }
        if !edit_is_insert(&v[i]) {
            return false;
        }
        i += 1;
    }
    true
}

/// Whether every edit of `v` is a deletion.
fn edits_all_deletes(v: &Vec<Edit>) -> (r: bool)
    ensures
        r == all_deletes(edits_m(v@)),
{
    let mut i: usize = 0;
    while i < v.len()
        invariant
            i <= v.len(),
            forall|j: int| 0 <= j < i ==> !(#[trigger] edits_m(v@)[j]).is_insert,
        decreases v.len() - i,
    {
        proof {
            assert(edits_m(v@)[i as int] == edit_m(v@[i as int]));
        }
        if edit_is_insert(&v[i]) {
            return false;
        }
        i += 1;
    }
    true
}

/// Check every batch-coalescing condition over the two sorted edit groups.
/// `last_len` and `pend_len` are the unsorted groups' lengths.
#[verifier::loop_isolation(false)]
fn check_batch_pair(ls: &Vec<Edit>, ps: &Vec<Edit>, last_len: usize, pend_len: usize) -> (r: bool)
    requires
        edits_m(ls@).len() == last_len,
        edits_m(ps@).len() == pend_len,
    ensures
        r == ({
            &&& last_len == pend_len
            &&& ((all_inserts(edits_m(ls@)) && all_inserts(edits_m(ps@))) || (all_deletes(
                edits_m(ls@),
            ) && all_deletes(edits_m(ps@))))
            &&& none_boundary(edits_m(ls@))
            &&& none_boundary(edits_m(ps@))
            &&& (all_inserts(edits_m(ls@)) && all_inserts(edits_m(ps@)) ==> insert_pairs_ok(
                edits_m(ls@),
                edits_m(ps@),
            ))
            &&& (!(all_inserts(edits_m(ls@)) && all_inserts(edits_m(ps@))) ==> delete_pairs_ok(
                edits_m(ls@),
                edits_m(ps@),
            ))
        }),
{
    if last_len != pend_len {
        return false;
    }
    let n = ls.len();
    let uniform_ins = edits_all_inserts(ls) && edits_all_inserts(ps);
    let uniform_del = edits_all_deletes(ls) && edits_all_deletes(ps);
    if !uniform_ins && !uniform_del {
        return false;
    }
    let mut i: usize = 0;
    while i < n
        invariant
            i <= n,
            n == edits_m(ls@).len(),
            n == edits_m(ps@).len(),
            forall|j: int| 0 <= j < i ==> !text_has_boundary((#[trigger] edits_m(ls@)[j]).text),
            forall|j: int| 0 <= j < i ==> !text_has_boundary((#[trigger] edits_m(ps@)[j]).text),
        decreases n - i,
    {
        proof {
            assert(edits_m(ls@)[i as int] == edit_m(ls@[i as int]));
            assert(edits_m(ps@)[i as int] == edit_m(ps@[i as int]));
        }
        if edit_has_boundary(&ls[i]) {
            return false;
        }
        if edit_has_boundary(&ps[i]) {
            return false;
        }
        i += 1;
    }
    if uniform_ins {
        let mut sum: usize = 0;
        let mut i: usize = 0;
        while i < n
            invariant
                i <= n,
                n == edits_m(ls@).len(),
                n == edits_m(ps@).len(),
                sum as int == lens_sum(edits_m(ls@), i as int),
                forall|j: int|
                    0 <= j < i ==> (#[trigger] edits_m(ps@)[j]).pos == edits_m(ls@)[j].pos + edits_m(
                        ls@,
                    )[j].text.len() + lens_sum(edits_m(ls@), j),
            decreases n - i,
        {
            proof {
                assert(edits_m(ls@)[i as int] == edit_m(ls@[i as int]));
                assert(edits_m(ps@)[i as int] == edit_m(ps@[i as int]));
            }
            let lp = edit_pos(&ls[i]);
            let lt = edit_text_len(&ls[i]);
            let pp = edit_pos(&ps[i]);
            if lp > usize::MAX - lt {
                proof {
                    assert(edits_m(ps@)[i as int].pos <= usize::MAX);
                    assert(!insert_pairs_ok(edits_m(ls@), edits_m(ps@)));
                    assert(!(all_inserts(edits_m(ls@)) && all_inserts(edits_m(ps@))
                        ==> insert_pairs_ok(edits_m(ls@), edits_m(ps@))));
                }
                return false;
            }
            if lp + lt > usize::MAX - sum {
                proof {
                    assert(edits_m(ps@)[i as int].pos <= usize::MAX);
                    assert(!insert_pairs_ok(edits_m(ls@), edits_m(ps@)));
                    assert(!(all_inserts(edits_m(ls@)) && all_inserts(edits_m(ps@))
                        ==> insert_pairs_ok(edits_m(ls@), edits_m(ps@))));
                }
                return false;
            }
            if pp != lp + lt + sum {
                proof {
                    assert(!insert_pairs_ok(edits_m(ls@), edits_m(ps@)));
                    assert(!(all_inserts(edits_m(ls@)) && all_inserts(edits_m(ps@))
                        ==> insert_pairs_ok(edits_m(ls@), edits_m(ps@))));
                }
                return false;
            }
            if lt > usize::MAX - sum {
                proof {
                    assert(false);
                }
            }
            sum = sum + lt;
            i += 1;
        }
        true
    } else {
        let mut i: usize = 0;
        while i < n
            invariant
                i <= n,
                n == edits_m(ls@).len(),
                n == edits_m(ps@).len(),
                forall|j: int| 0 <= j < i ==> delete_pair_ok(edits_m(ls@)[j], #[trigger] edits_m(ps@)[j]),
            decreases n - i,
        {
            proof {
                assert(edits_m(ls@)[i as int] == edit_m(ls@[i as int]));
                assert(edits_m(ps@)[i as int] == edit_m(ps@[i as int]));
            }
            let lp = edit_pos(&ls[i]);
            let pp = edit_pos(&ps[i]);
            let pt = edit_text_len(&ps[i]);
            let is_backspace = pp <= usize::MAX - pt && pp + pt == lp;
            if !is_backspace && pp != lp {
                proof {
                    assert(edits_m(ls@)[i as int].pos <= usize::MAX);
                    assert(!delete_pair_ok(edits_m(ls@)[i as int], edits_m(ps@)[i as int]));
                    assert(!delete_pairs_ok(edits_m(ls@), edits_m(ps@)));
                    assert(!(!(all_inserts(edits_m(ls@)) && all_inserts(edits_m(ps@)))
                        ==> delete_pairs_ok(edits_m(ls@), edits_m(ps@))));
                }
                return false;
            }
            i += 1;
        }
        true
    }
}

/// Merge two sorted, pairwise-adjacent batches pair by pair, highest
/// positions first.
#[verifier::loop_isolation(false)]
fn merge_sorted_batches(ls: &Vec<Edit>, ps: &Vec<Edit>) -> (r: Vec<Edit>)
    requires
        edits_m(ls@).len() == edits_m(ps@).len(),
        (all_inserts(edits_m(ls@)) && all_inserts(edits_m(ps@))) || (all_deletes(edits_m(ls@))
            && all_deletes(edits_m(ps@))),
    ensures
        edits_m(r@) == if all_inserts(edits_m(ls@)) && all_inserts(edits_m(ps@)) {
            Seq::new(edits_m(ls@).len(), |i: int| merged_insert(edits_m(ls@)[i], edits_m(ps@)[i])).reverse()
        } else {
            Seq::new(edits_m(ls@).len(), |i: int| merged_delete(edits_m(ls@)[i], edits_m(ps@)[i])).reverse()
        },
{
    let n = ls.len();
    let mut r: Vec<Edit> = Vec::new();
    let ghost lm = edits_m(ls@);
    let ghost pm = edits_m(ps@);
    let ghost goal: Seq<EditM> = if all_inserts(lm) && all_inserts(pm) {
        Seq::new(lm.len(), |i: int| merged_insert(lm[i], pm[i])).reverse()
    } else {
        Seq::new(lm.len(), |i: int| merged_delete(lm[i], pm[i])).reverse()
    };
    let mut j: usize = 0;
    proof {
        assert(edits_m(r@) =~= goal.take(0));
    }
    while j < n
        invariant
            j <= n,
            edits_m(r@) == goal.take(j as int),
        decreases n - j,
    {
        let i = n - 1 - j;
        proof {
            assert(lm[i as int] == edit_m(ls@[i as int]));
            assert(pm[i as int] == edit_m(ps@[i as int]));
            assert(goal[j as int] == if all_inserts(lm) && all_inserts(pm) {
                merged_insert(lm[i as int], pm[i as int])
            } else {
                merged_delete(lm[i as int], pm[i as int])
            });
        }
        let merged: Edit;
        match (&ls[i], &ps[i]) {
            (
                Edit::Insert { position: lp, text: lt },
                Edit::Insert { text: pt, .. },
            ) => {
                merged = Edit::Insert { position: *lp, text: lt.clone().concat(pt.as_str()) };
                proof {
                    assert(edit_m(merged) == merged_insert(lm[i as int], pm[i as int]));
                }
            },
            (
                Edit::Delete { position: lp, text: lt },
                Edit::Delete { position: pp, text: pt },
            ) => {
                let ptl = pt.as_str().unicode_len();
                if pp.0 <= usize::MAX - ptl && pp.0 + ptl == lp.0 {
                    merged = Edit::Delete { position: *pp, text: pt.clone().concat(lt.as_str()) };
                } else {
                    merged = Edit::Delete { position: *lp, text: lt.clone().concat(pt.as_str()) };
                }
                proof {
                    assert(edit_m(merged) == merged_delete(lm[i as int], pm[i as int]));
                    assert(!(all_inserts(lm) && all_inserts(pm))) by {
                        assert(!lm[i as int].is_insert);
                    }
                }
            },
            _ => {
                proof {
                    assert(lm[i as int].is_insert == pm[i as int].is_insert);
                    assert(false);
                }
                merged = Edit::Insert { position: CharOffset(0), text: String::new() };
            },
        };
        let ghost old_rv = r@;
        r.push(merged);
        proof {
            assert(edits_m(old_rv).len() == old_rv.len());
            assert(old_rv.len() == j as int);
            assert(edit_m(merged) == goal[j as int]);
            assert forall|q: int| 0 <= q < j + 1 implies edits_m(r@)[q] == goal.take(
                j as int + 1,
            )[q] by {
                assert(edits_m(r@)[q] == edit_m(r@[q]));
                if q < j {
                    assert(r@[q] == old_rv[q]);
                    assert(edits_m(old_rv)[q] == edit_m(old_rv[q]));
                    assert(edits_m(old_rv)[q] == goal.take(j as int)[q]);
                } else {
                    assert(r@[q] == merged);
                }
            }
            assert(edits_m(r@).len() == j + 1);
            assert(edits_m(r@) =~= goal.take(j as int + 1));
        }
        j += 1;
    }
    proof {
        assert(goal.take(n as int) =~= goal);
    }
    r
}

/// The mathematical value of an `UndoEdit`: for insertions `text` carries the
/// content, for deletions only `len` matters.
#[verifier::ext_equal]
pub struct UndoEditM {
    pub is_insert: bool,
    pub pos: int,
    pub text: Seq<char>,
    pub len: int,
}

pub open spec fn undo_edit_m(e: UndoEdit) -> UndoEditM {
    match e {
        UndoEdit::Insert { position, text } => UndoEditM {
            is_insert: true,
            pos: position.0 as int,
            text: text@,
            len: text@.len() as int,
        },
        UndoEdit::Delete { position, len } => UndoEditM {
            is_insert: false,
            pos: position.0 as int,
            text: Seq::empty(),
            len: len as int,
        },
    }
}

pub open spec fn undo_edits_m(v: Seq<UndoEdit>) -> Seq<UndoEditM> {
    v.map_values(|e: UndoEdit| undo_edit_m(e))
}

/// How a recorded edit is handed to the buffer for application.
pub open spec fn to_undo_edit(e: EditM) -> UndoEditM {
    if e.is_insert {
        UndoEditM { is_insert: true, pos: e.pos, text: e.text, len: e.text.len() as int }
    } else {
        UndoEditM { is_insert: false, pos: e.pos, text: Seq::empty(), len: e.text.len() as int }
    }
}

pub open spec fn to_undo_edits(es: Seq<EditM>) -> Seq<UndoEditM> {
    es.map_values(|e: EditM| to_undo_edit(e))
}

/// Where the next undo step reads: the explicit index while traversing, the
/// end of the log otherwise.
pub open spec fn effective_index(m: TreeM) -> int {
    match m.undo_index {
        Some(i) => i,
        None => m.entries.len() as int,
    }
}

/// The history after an undo step: the pending batch is committed, and if any
/// entry remains before the traversal point, its inverse is appended to the
/// log and the traversal point moves one entry back.
pub open spec fn undo_post_m(m: TreeM) -> TreeM {
    let f = flush_m(m);
    let idx = effective_index(f);
    if idx <= 0 {
        f
    } else {
        TreeM {
            entries: f.entries.push(
                EntryM { edits: edits_inverse_m(f.entries[idx - 1].edits), cursors: None },
            ),
            undo_index: Some(idx - 1),
            ..f
        }
    }
}

impl UndoTree {
    /// Take one undo step. While already traversing backward, each step
    /// appends the inverse of the entry before the traversal point, so the
    /// log grows and redo is traversal over those inverses.
    #[verifier::loop_isolation(false)]
    pub fn undo(&mut self) -> (r: UndoResult)
        requires
            Self::wf_m(old(self).model()),
        ensures
            final(self).model() == undo_post_m(old(self).model()),
            Self::wf_m(final(self).model()),
            ({
                let f = flush_m(old(self).model());
                let idx = effective_index(f);
                match r {
                    UndoResult::Nothing => idx <= 0,
                    UndoResult::Apply { edits, restore_cursors } => {
                        &&& idx > 0
                        &&& undo_edits_m(edits@) == to_undo_edits(
                            edits_inverse_m(f.entries[idx - 1].edits),
                        )
                        &&& cursors_m(restore_cursors) == f.entries[idx - 1].cursors
                    },
                }
            }),
    {
        self.flush_pending();
        proof {
            lemma_flush_wf(old(self).model());
        }
        let ghost f = self.model();
        let idx = match self.undo_index {
            Some(i) => i,
            None => self.entries.len(),
        };
        if idx == 0 {
            return UndoResult::Nothing;
        }
        proof {
            assert(f.entries[idx - 1] == entry_m(self.entries@[idx - 1]));
        }
        let ghost src = edits_m(self.entries@[idx - 1].edits@);
        let n_edits = self.entries[idx - 1].edits.len();
        let mut inverse: Vec<Edit> = Vec::new();
        let mut out: Vec<UndoEdit> = Vec::new();
        let mut j: usize = n_edits;
        proof {
            assert(edits_m(inverse@) =~= edits_inverse_m(src.skip(j as int)));
            assert(undo_edits_m(out@) =~= to_undo_edits(edits_inverse_m(src.skip(j as int))));
        }
        while j > 0
            invariant
                j <= n_edits,
                edits_m(inverse@) == edits_inverse_m(src.skip(j as int)),
                undo_edits_m(out@) == to_undo_edits(edits_inverse_m(src.skip(j as int))),
            decreases j,
        {
            j = j - 1;
            let ghost pre_inv = inverse@;
            let ghost pre_out = out@;
            match &self.entries[idx - 1].edits[j] {
                Edit::Insert { position, text } => {
                    inverse.push(Edit::Delete { position: *position, text: text.clone() });
                    out.push(
                        UndoEdit::Delete { position: *position, len: text.as_str().unicode_len() },
                    );
                },
                Edit::Delete { position, text } => {
                    inverse.push(Edit::Insert { position: *position, text: text.clone() });
                    out.push(UndoEdit::Insert { position: *position, text: text.clone() });
                },
            }
            proof {
                assert(src[j as int] == edit_m(self.entries@[idx - 1].edits@[j as int]));
                assert(src.skip(j as int).reverse() =~= src.skip(j as int + 1).reverse().push(
                    src[j as int],
                ));
                assert(edits_m(inverse@) =~= edits_m(pre_inv).push(edit_inverse_m(src[j as int])));
                assert(edits_inverse_m(src.skip(j as int)) =~= edits_inverse_m(
                    src.skip(j as int + 1),
                ).push(edit_inverse_m(src[j as int])));
                assert(undo_edits_m(out@) =~= undo_edits_m(pre_out).push(
                    to_undo_edit(edit_inverse_m(src[j as int])),
                ));
                assert(to_undo_edits(edits_inverse_m(src.skip(j as int))) =~= to_undo_edits(
                    edits_inverse_m(src.skip(j as int + 1)),
                ).push(to_undo_edit(edit_inverse_m(src[j as int]))));
            }
        }
        proof {
            assert(src.skip(0) =~= src);
        }
        let restore: Option<CursorSet> = match &self.entries[idx - 1].cursors_before {
            Some(cs) => Some(cs.clone()),
            None => None,
        };
        proof {
            assert(cursors_m(restore) == f.entries[idx - 1].cursors);
        }
        self.entries.push(UndoEntry { edits: inverse, cursors_before: None });
        self.undo_index = Some(idx - 1);
        proof {
            assert(entries_m(self.entries@) =~= f.entries.push(
                EntryM { edits: edits_inverse_m(f.entries[idx - 1].edits), cursors: None },
            ));
            assert(self.model() =~= undo_post_m(old(self).model()));
        }
        UndoResult::Apply { edits: out, restore_cursors: restore }
    }

    /// Take one redo step: re-apply what the most recent undo reversed. The
    /// undo appended its inverse at the end of the log, so redo restarts
    /// traversal from the end and undoes that inverse.
    pub fn redo(&mut self) -> (r: UndoResult)
        ensures
            final(self).model() == undo_post_m(
                TreeM { undo_index: None, ..old(self).model() },
            ),
            Self::wf_m(final(self).model()),
            ({
                let f = flush_m(TreeM { undo_index: None, ..old(self).model() });
                let idx = effective_index(f);
                match r {
                    UndoResult::Nothing => idx <= 0,
                    UndoResult::Apply { edits, restore_cursors } => {
                        &&& idx > 0
                        &&& undo_edits_m(edits@) == to_undo_edits(
                            edits_inverse_m(f.entries[idx - 1].edits),
                        )
                        &&& cursors_m(restore_cursors) == f.entries[idx - 1].cursors
                    },
                }
            }),
    {
        self.undo_index = None;
        proof {
            assert(self.model() =~= TreeM { undo_index: None, ..old(self).model() });
        }
        self.undo()
    }
}

/// Committing the pending batch keeps the traversal index inside the log.
pub proof fn lemma_flush_wf(m: TreeM)
    requires
        UndoTree::wf_m(m),
    ensures
        UndoTree::wf_m(flush_m(m)),
{
}


/// A text edit applies to `t`: an insertion lands inside the text, a deletion
/// removes exactly the text it recorded.
pub open spec fn valid_edit_text(t: Seq<char>, e: EditM) -> bool {
    if e.is_insert {
        0 <= e.pos <= t.len()
    } else {
        0 <= e.pos && e.pos + e.text.len() <= t.len() && t.subrange(e.pos, e.pos + e.text.len())
            == e.text
    }
}

/// `t` after one edit.
pub open spec fn apply_edit_text(t: Seq<char>, e: EditM) -> Seq<char> {
    if e.is_insert {
        t.take(e.pos) + e.text + t.skip(e.pos)
    } else {
        t.take(e.pos) + t.skip(e.pos + e.text.len())
    }
}

/// `t` after a group of edits, applied left to right.
pub open spec fn apply_edits_text(t: Seq<char>, es: Seq<EditM>) -> Seq<char>
    decreases es.len(),
{
    if es.len() == 0 {
        t
    } else {
        apply_edits_text(apply_edit_text(t, es[0]), es.drop_first())
    }
}

/// Each edit of the group applies validly to the text the previous ones left.
pub open spec fn valid_edits_text(t: Seq<char>, es: Seq<EditM>) -> bool
    decreases es.len(),
{
    if es.len() == 0 {
        true
    } else {
        valid_edit_text(t, es[0]) && valid_edits_text(apply_edit_text(t, es[0]), es.drop_first())
    }
}

/// One edit and its inverse cancel on any text the edit applies to, and the
/// inverse applies to the edited text.
proof fn lemma_edit_inverse_cancels(t: Seq<char>, e: EditM)
    requires
        valid_edit_text(t, e),
    ensures
        valid_edit_text(apply_edit_text(t, e), edit_inverse_m(e)),
        apply_edit_text(apply_edit_text(t, e), edit_inverse_m(e)) == t,
{
    let t1 = apply_edit_text(t, e);
    if e.is_insert {
        assert(t1.subrange(e.pos, e.pos + e.text.len()) =~= e.text);
        assert(apply_edit_text(t1, edit_inverse_m(e)) =~= t);
    } else {
        assert(apply_edit_text(t1, edit_inverse_m(e)) =~= t);
    }
}

/// Applying a concatenation of groups is applying one after the other.
proof fn lemma_apply_edits_concat(t: Seq<char>, a: Seq<EditM>, b: Seq<EditM>)
    ensures
        apply_edits_text(t, a + b) == apply_edits_text(apply_edits_text(t, a), b),
    decreases a.len(),
{
    if a.len() == 0 {
        assert(a + b =~= b);
    } else {
        assert((a + b).drop_first() =~= a.drop_first() + b);
        lemma_apply_edits_concat(apply_edit_text(t, a[0]), a.drop_first(), b);
    }
}

/// A group followed by its inverse restores the text it started from.
pub proof fn lemma_edits_inverse_cancels(t: Seq<char>, es: Seq<EditM>)
    requires
        valid_edits_text(t, es),
    ensures
        apply_edits_text(apply_edits_text(t, es), edits_inverse_m(es)) == t,
    decreases es.len(),
{
    if es.len() == 0 {
        assert(edits_inverse_m(es) =~= Seq::<EditM>::empty());
    } else {
        let e = es[0];
        let t1 = apply_edit_text(t, e);
        let rest = es.drop_first();
        lemma_edits_inverse_cancels(t1, rest);
        lemma_edit_inverse_cancels(t, e);
        assert(edits_inverse_m(es) =~= edits_inverse_m(rest) + seq![edit_inverse_m(e)]) by {
            assert(es.reverse() =~= rest.reverse().push(e));
            assert(edits_inverse_m(es) =~= edits_inverse_m(rest).push(edit_inverse_m(e)));
            assert(edits_inverse_m(rest).push(edit_inverse_m(e)) =~= edits_inverse_m(rest) + seq![
                edit_inverse_m(e),
            ]);
        }
        lemma_apply_edits_concat(
            apply_edits_text(t, es),
            edits_inverse_m(rest),
            seq![edit_inverse_m(e)],
        );
        assert(apply_edits_text(t, es) == apply_edits_text(t1, rest));
        assert(apply_edits_text(apply_edits_text(t1, rest), edits_inverse_m(rest)) == t1);
        assert(apply_edits_text(t1, seq![edit_inverse_m(e)]) == apply_edit_text(
            t1,
            edit_inverse_m(e),
        )) by {
            let single = seq![edit_inverse_m(e)];
            assert(single[0] == edit_inverse_m(e));
            assert(single.drop_first() =~= Seq::<EditM>::empty());
            assert(apply_edits_text(t1, single) == apply_edits_text(
                apply_edit_text(t1, edit_inverse_m(e)),
                Seq::<EditM>::empty(),
            ));
            assert(apply_edits_text(apply_edit_text(t1, edit_inverse_m(e)), Seq::<EditM>::empty())
                == apply_edit_text(t1, edit_inverse_m(e)));
        }
    }
}

/// Inverting an edit group twice gives the group back.
pub proof fn lemma_inverse_involution(es: Seq<EditM>)
    ensures
        edits_inverse_m(edits_inverse_m(es)) == es,
{
    assert forall|i: int| 0 <= i < es.len() implies edits_inverse_m(edits_inverse_m(es))[i]
        == es[i] by {
        assert(edits_inverse_m(es)[es.len() - 1 - i] == edit_inverse_m(es[i]));
    }
    assert(edits_inverse_m(edits_inverse_m(es)) =~= es);
}

/// Undo, then redo: undo applies the inverse of the last group, redo the
/// inverse of that inverse. On any text the group validly applies to, the
/// pair first restores the pre-edit text exactly and then re-applies the
/// group, restoring the post-edit text exactly.
pub proof fn lemma_undo_redo_restores_text(t0: Seq<char>, es: Seq<EditM>)
    requires
        valid_edits_text(t0, es),
    ensures
        apply_edits_text(apply_edits_text(t0, es), edits_inverse_m(es)) == t0,
        edits_inverse_m(edits_inverse_m(es)) == es,
        apply_edits_text(t0, edits_inverse_m(edits_inverse_m(es))) == apply_edits_text(t0, es),
{
    lemma_edits_inverse_cancels(t0, es);
    lemma_inverse_involution(es);
}

/// Undo then redo walk the history as a pair: from a fresh traversal point
/// the undo step reads the last committed group, appends its inverse to the
/// log and steps back; the redo step that follows reads exactly that
/// appended inverse, whose inverse is the original group again, so on any
/// text the group validly applies to, the pair of steps first restores the
/// pre-edit text and then the post-edit text exactly.
pub proof fn lemma_undo_then_redo_roundtrip(m: TreeM, t0: Seq<char>)
    requires
        m.undo_index is None,
        flush_m(m).entries.len() > 0,
        valid_edits_text(t0, flush_m(m).entries.last().edits),
    ensures
        ({
            let f = flush_m(m);
            let es = f.entries.last().edits;
            let idx = effective_index(f);
            let f2 = flush_m(TreeM { undo_index: None, ..undo_post_m(m) });
            let idx2 = effective_index(f2);
            &&& idx == f.entries.len() && idx > 0
            &&& f.entries[idx - 1].edits == es
            &&& idx2 == f2.entries.len() && idx2 > 0
            &&& f2.entries[idx2 - 1].edits == edits_inverse_m(es)
            &&& edits_inverse_m(f2.entries[idx2 - 1].edits) == es
            &&& apply_edits_text(apply_edits_text(t0, es), edits_inverse_m(es)) == t0
            &&& apply_edits_text(t0, edits_inverse_m(f2.entries[idx2 - 1].edits))
                == apply_edits_text(t0, es)
        }),
{
    let f = flush_m(m);
    let es = f.entries.last().edits;
    lemma_inverse_involution(es);
    lemma_edits_inverse_cancels(t0, es);
}

/// The run of single-character insertions `cs` starting at `pos`, recorded
/// one after the other.
pub open spec fn run_inserts_m(m: TreeM, pos: int, cs: Seq<char>) -> TreeM
    decreases cs.len(),
{
    if cs.len() == 0 {
        m
    } else {
        run_inserts_m(record_insert_m(m, pos, seq![cs[0]]), pos + 1, cs.drop_first())
    }
}

proof fn lemma_run_extends(m: TreeM, p0: int, done: Seq<char>, cs: Seq<char>)
    requires
        m.batch_depth == 0,
        m.mode == CoalesceMode::Insertion,
        m.pending =~= seq![EditM { is_insert: true, pos: p0, text: done }],
        m.last_insert_end == Some(p0 + done.len()),
        m.undo_index is None,
        done.len() >= 1,
        forall|i: int| 0 <= i < done.len() ==> !spec_word_boundary(done[i]),
        forall|i: int| 0 <= i < cs.len() ==> !spec_word_boundary(#[trigger] cs[i]),
    ensures
        run_inserts_m(m, p0 + done.len(), cs) == (TreeM {
            pending: seq![EditM { is_insert: true, pos: p0, text: done + cs }],
            last_insert_end: Some(p0 + done.len() + cs.len()),
            ..m
        }),
    decreases cs.len(),
{
    if cs.len() == 0 {
        assert(done + cs =~= done);
        assert(run_inserts_m(m, p0 + done.len(), cs) =~~= TreeM {
            pending: seq![EditM { is_insert: true, pos: p0, text: done + cs }],
            last_insert_end: Some(p0 + done.len() + cs.len()),
            ..m
        });
    } else {
        let c = cs[0];
        let m1 = record_insert_m(m, p0 + done.len(), seq![c]);
        assert(should_coalesce_insert_m(TreeM { undo_index: None, ..m }, p0 + done.len(), seq![c]))
            by {
            assert(m.pending.last() == EditM { is_insert: true, pos: p0, text: done });
            assert(!spec_word_boundary(done.last())) by {
                assert(!spec_word_boundary(done[done.len() - 1]));
            }
        }
        let done1 = done + seq![c];
        assert(m1 =~~= TreeM {
            pending: seq![EditM { is_insert: true, pos: p0, text: done1 }],
            last_insert_end: Some(p0 + done1.len()),
            ..m
        }) by {
            assert(m.pending.update(0, EditM {
                is_insert: true,
                pos: p0,
                text: done + seq![c],
            }) =~= seq![EditM { is_insert: true, pos: p0, text: done1 }]);
            assert(m.pending.last().text + seq![c] =~= done1);
        }
        assert forall|i: int| 0 <= i < done1.len() implies !spec_word_boundary(done1[i]) by {
            if i < done.len() {
                assert(done1[i] == done[i]);
            } else {
                assert(done1[i] == cs[0]);
            }
        }
        lemma_run_extends(m1, p0, done1, cs.drop_first());
        assert(done1 + cs.drop_first() =~= done + cs);
        assert(run_inserts_m(m, p0 + done.len(), cs) == run_inserts_m(
            m1,
            p0 + done.len() + 1,
            cs.drop_first(),
        ));
    }
}

/// A run of single-character insertions with no whitespace or ASCII
/// punctuation coalesces into one pending edit holding the whole run: nothing
/// new is committed, so one undo step reverses all of it, as the single
/// deletion `edits_inverse_m` gives.
pub proof fn lemma_insert_run_coalesces(m: TreeM, pos: int, cs: Seq<char>)
    requires
        m.batch_depth == 0,
        m.pending.len() == 0,
        cs.len() >= 1,
        forall|i: int| 0 <= i < cs.len() ==> !spec_word_boundary(#[trigger] cs[i]),
    ensures
        run_inserts_m(m, pos, cs).pending == seq![EditM { is_insert: true, pos, text: cs }],
        run_inserts_m(m, pos, cs).entries == m.entries,
        edits_inverse_m(seq![EditM { is_insert: true, pos, text: cs }]) == seq![
            EditM { is_insert: false, pos, text: cs },
        ],
{
    let c = cs[0];
    let m0 = TreeM { undo_index: None, ..m };
    assert(flush_m(m0) == m0);
    let m1 = record_insert_m(m, pos, seq![c]);
    assert(m1 =~~= TreeM {
        pending: seq![EditM { is_insert: true, pos, text: seq![c] }],
        mode: CoalesceMode::Insertion,
        last_insert_end: Some(pos + 1),
        last_delete_pos: None,
        undo_index: None,
        ..m
    }) by {
        assert(m0.pending.push(EditM { is_insert: true, pos, text: seq![c] }) =~= seq![
            EditM { is_insert: true, pos, text: seq![c] },
        ]);
    }
    lemma_run_extends(m1, pos, seq![c], cs.drop_first());
    assert(seq![c] + cs.drop_first() =~= cs);
    assert(run_inserts_m(m, pos, cs) == run_inserts_m(m1, pos + 1, cs.drop_first()));
    assert(run_inserts_m(m, pos, cs).pending =~= seq![EditM { is_insert: true, pos, text: cs }]);
    assert(edits_inverse_m(seq![EditM { is_insert: true, pos, text: cs }]) =~= seq![
        EditM { is_insert: false, pos, text: cs },
    ]) by {
        assert(seq![EditM { is_insert: true, pos, text: cs }].reverse() =~= seq![
            EditM { is_insert: true, pos, text: cs },
        ]);
    }
}

/// Inserting a whitespace or ASCII punctuation character starts a fresh undo
/// group: whatever was pending is committed to the log, and the boundary
/// character stands alone in the new pending group.
pub proof fn lemma_boundary_starts_fresh_group(m: TreeM, pos: int, c: char)
    requires
        spec_word_boundary(c),
        m.batch_depth == 0,
    ensures
        record_insert_m(m, pos, seq![c]).pending == seq![
            EditM { is_insert: true, pos, text: seq![c] },
        ],
        record_insert_m(m, pos, seq![c]).entries == flush_m(
            TreeM { undo_index: None, ..m },
        ).entries,
{
    let m0 = TreeM { undo_index: None, ..m };
    assert(!should_coalesce_insert_m(m0, pos, seq![c]));
    assert(flush_m(m0).pending.push(EditM { is_insert: true, pos, text: seq![c] }) =~= seq![
        EditM { is_insert: true, pos, text: seq![c] },
    ]);
}

} // verus!
