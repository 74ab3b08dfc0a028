//! The bounded undo/redo ledger of applied commands.

use vstd::prelude::*;
use crate::document::{
    DocModel,
    Document,
    EditCommand,
    apply_spec,
    inverse_of,
    lemma_apply_then_inverse,
    lemma_apply_wf,
    lemma_inverse_involutive,
};
use crate::pixel::EditorError;

verus! {

/// Applies the commands of `s` in order, first to last.
pub open spec fn apply_all(d: DocModel, s: Seq<EditCommand>) -> Result<DocModel, EditorError>
    decreases s.len(),
{
    if s.len() == 0 {
        Ok(d)
    } else {
        match apply_all(d, s.drop_last()) {
            Ok(d1) => apply_spec(d1, s.last()),
            Err(e) => Err(e),
        }
    }
}

/// Applies the inverses of the commands of `s`, last to first: what undoing
/// all of them does.
pub open spec fn unapply_all(d: DocModel, s: Seq<EditCommand>) -> Result<DocModel, EditorError>
    decreases s.len(),
{
    if s.len() == 0 {
        Ok(d)
    } else {
        match apply_spec(d, inverse_of(s.last())) {
            Ok(d1) => unapply_all(d1, s.drop_last()),
            Err(e) => Err(e),
        }
    }
}

/// Applies the commands of `s`, last to first: what redoing all of them does.
pub open spec fn reapply_all(d: DocModel, s: Seq<EditCommand>) -> Result<DocModel, EditorError>
    decreases s.len(),
{
    if s.len() == 0 {
        Ok(d)
    } else {
        match apply_spec(d, s.last()) {
            Ok(d1) => reapply_all(d1, s.drop_last()),
            Err(e) => Err(e),
        }
    }
}

/// `s` with `c` pushed on top, keeping only the newest `cap` entries.
pub open spec fn bounded_push(s: Seq<EditCommand>, c: EditCommand, cap: nat) -> Seq<EditCommand> {
    let t = s.push(c);
    if t.len() > cap {
        t.subrange(t.len() - cap, t.len() as int)
    } else {
        t
    }
}

/// Two stacks of commands. Pushing a command clears the redo stack; only
/// undo fills it. At most `capacity` entries can be undone: the oldest are
/// dropped beyond that.
#[derive(Debug)]
pub struct HistoryStack {
    undo: Vec<EditCommand>,
    redo: Vec<EditCommand>,
    capacity: usize,
}

proof fn lemma_unapply_drop_first(d: DocModel, s: Seq<EditCommand>)
    requires
        s.len() >= 1,
        unapply_all(d, s) is Ok,
    ensures
        unapply_all(d, s.drop_first()) is Ok,
    decreases s.len(),
{
    if s.len() > 1 {
        let d1 = apply_spec(d, inverse_of(s.last()))->Ok_0;
        assert(s.drop_first().last() == s.last());
        assert(s.drop_first().drop_last() =~= s.drop_last().drop_first());
        lemma_unapply_drop_first(d1, s.drop_last());
    }
}

proof fn lemma_unapply_bounded(d: DocModel, s: Seq<EditCommand>, c: EditCommand, cap: nat)
    requires
        s.len() <= cap,
        unapply_all(d, s.push(c)) is Ok,
    ensures
        unapply_all(d, bounded_push(s, c, cap)) is Ok,
        bounded_push(s, c, cap).len() <= cap,
{
    let t = s.push(c);
    if t.len() > cap {
        if cap == 0 {
            assert(bounded_push(s, c, cap) =~= Seq::<EditCommand>::empty());
        } else {
            lemma_unapply_drop_first(d, t);
            assert(bounded_push(s, c, cap) =~= t.drop_first());
        }
    }
}

/// Undoing every command of a sequence that applied, newest first, gives
/// back the document the sequence started from.
pub proof fn lemma_undo_all_restores(d: DocModel, s: Seq<EditCommand>)
    requires
        d.wf(),
        apply_all(d, s) is Ok,
    ensures
        apply_all(d, s)->Ok_0.wf(),
        unapply_all(apply_all(d, s)->Ok_0, s) == Ok::<DocModel, EditorError>(d),
    decreases s.len(),
{
    if s.len() > 0 {
        lemma_undo_all_restores(d, s.drop_last());
        let d1 = apply_all(d, s.drop_last())->Ok_0;
        lemma_apply_wf(d1, s.last());
        lemma_apply_then_inverse(d1, s.last());
    }
}

/// Redoing right after an undo restores the undone state: where undoing
/// `c` applies, applying `c` again gives back the document it started from.
pub proof fn lemma_redo_after_undo(d: DocModel, c: EditCommand)
    requires
        d.wf(),
        apply_spec(d, inverse_of(c)) is Ok,
    ensures
        apply_spec(apply_spec(d, inverse_of(c))->Ok_0, c) == Ok::<DocModel, EditorError>(d),
{
    lemma_apply_then_inverse(d, inverse_of(c));
    lemma_inverse_involutive(c);
}

impl HistoryStack {
    pub closed spec fn undo_entries(&self) -> Seq<EditCommand> {
        self.undo@
    }

    pub closed spec fn redo_entries(&self) -> Seq<EditCommand> {
        self.redo@
    }

    pub closed spec fn limit(&self) -> nat {
        self.capacity as nat
    }

    /// This history belongs to a document in state `d`: every entry can be
    /// undone, and then every undone entry redone.
    pub open spec fn tracks(&self, d: DocModel) -> bool {
        &&& d.wf()
        &&& self.undo_entries().len() <= self.limit()
        &&& unapply_all(d, self.undo_entries()) is Ok
        &&& reapply_all(d, self.redo_entries()) is Ok
    }

    /// An empty history that keeps at most `capacity` undoable entries.
    pub fn new(capacity: usize) -> (h: HistoryStack)
        ensures
            h.undo_entries() == Seq::<EditCommand>::empty(),
            h.redo_entries() == Seq::<EditCommand>::empty(),
            h.limit() == capacity,
            forall|d: DocModel| d.wf() ==> h.tracks(d),
    {
        let h = HistoryStack { undo: Vec::new(), redo: Vec::new(), capacity };
        assert(h.undo@ =~= Seq::<EditCommand>::empty());
        assert(h.redo@ =~= Seq::<EditCommand>::empty());
        h
    }

    pub fn undo_len(&self) -> (r: usize)
        ensures
            r == self.undo_entries().len(),
    {
        self.undo.len()
    }

    pub fn redo_len(&self) -> (r: usize)
        ensures
            r == self.redo_entries().len(),
    {
        self.redo.len()
    }

    /// Applies `cmd` to `doc`. On success `cmd` goes on top of the undo stack
    /// (the oldest entry leaves where the stack is full) and the redo stack is
    /// cleared; on failure neither the history nor the document changes.
    pub fn push_and_apply(&mut self, cmd: EditCommand, doc: &mut Document) -> (r: Result<
        (),
        EditorError,
    >)
        requires
            old(self).tracks(old(doc)@),
        ensures
            final(self).tracks(final(doc)@),
            final(self).limit() == old(self).limit(),
            apply_spec(old(doc)@, cmd) is Ok ==> r is Ok && final(doc)@ == apply_spec(
                old(doc)@,
                cmd,
            )->Ok_0 && final(self).undo_entries() == bounded_push(
                old(self).undo_entries(),
                cmd,
                old(self).limit(),
            ) && final(self).redo_entries() == Seq::<EditCommand>::empty(),
            apply_spec(old(doc)@, cmd) is Err ==> r == Err::<(), EditorError>(
                apply_spec(old(doc)@, cmd)->Err_0,
            ) && final(doc)@ == old(doc)@ && final(self).undo_entries() == old(
                self,
            ).undo_entries() && final(self).redo_entries() == old(self).redo_entries(),
    {
        let ghost d0 = doc@;
        let ghost u0 = self.undo@;
        match doc.apply(&cmd) {
            Err(e) => Err(e),
            Ok(()) => {
                proof {
                    lemma_apply_then_inverse(d0, cmd);
                    assert(u0.push(cmd).drop_last() =~= u0);
                    lemma_unapply_bounded(doc@, u0, cmd, self.capacity as nat);
                }
                if self.capacity == 0 {
                    assert(bounded_push(u0, cmd, 0) =~= self.undo@);
                } else {
                    if self.undo.len() == self.capacity {
                        self.undo.remove(0);
                    }
                    self.undo.push(cmd);
                    assert(bounded_push(u0, cmd, self.capacity as nat) =~= self.undo@);
                }
                self.redo.clear();
                Ok(())
            },
        }
    }

    /// Undoes the newest entry: applies its inverse to `doc` and moves it to
    /// the redo stack. Returns false, changing nothing, when there is nothing
    /// to undo.
    pub fn undo(&mut self, doc: &mut Document) -> (r: bool)
        requires
            old(self).tracks(old(doc)@),
        ensures
            final(self).tracks(final(doc)@),
            final(self).limit() == old(self).limit(),
            r == (old(self).undo_entries().len() > 0),
            !r ==> final(doc)@ == old(doc)@ && final(self).undo_entries() == old(
                self,
            ).undo_entries() && final(self).redo_entries() == old(self).redo_entries(),
            r ==> final(doc)@ == apply_spec(
                old(doc)@,
                inverse_of(old(self).undo_entries().last()),
            )->Ok_0 && final(self).undo_entries() == old(self).undo_entries().drop_last()
                && final(self).redo_entries() == old(self).redo_entries().push(
                old(self).undo_entries().last(),
            ),
    {
        let ghost d0 = doc@;
        let ghost u0 = self.undo@;
        match self.undo.pop() {
            None => false,
            Some(c) => {
                let inv = c.inverse();
                let _undone = doc.apply(&inv);
                proof {
                    lemma_redo_after_undo(d0, c);
                    lemma_apply_wf(d0, inverse_of(c));
                    lemma_inverse_involutive(c);
                    assert(u0.drop_last() =~= self.undo@);
                }
                let back = inv.inverse();
                self.redo.push(back);
                proof {
                    assert(self.redo@.drop_last() =~= old(self).redo@);
                }
                true
            },
        }
    }

    /// Redoes the newest undone entry: applies it to `doc` and moves it back
    /// to the undo stack. Returns false, changing nothing, when there is
    /// nothing to redo.
    pub fn redo(&mut self, doc: &mut Document) -> (r: bool)
        requires
            old(self).tracks(old(doc)@),
        ensures
            final(self).tracks(final(doc)@),
            final(self).limit() == old(self).limit(),
            r == (old(self).redo_entries().len() > 0),
            !r ==> final(doc)@ == old(doc)@ && final(self).undo_entries() == old(
                self,
            ).undo_entries() && final(self).redo_entries() == old(self).redo_entries(),
            r ==> final(doc)@ == apply_spec(old(doc)@, old(self).redo_entries().last())->Ok_0
                && final(self).undo_entries() == bounded_push(
                old(self).undo_entries(),
                old(self).redo_entries().last(),
                old(self).limit(),
            ) && final(self).redo_entries() == old(self).redo_entries().drop_last(),
    {
        let ghost d0 = doc@;
        let ghost u0 = self.undo@;
        match self.redo.pop() {
            None => false,
            Some(c) => {
                let _redone = doc.apply(&c);
                proof {
                    lemma_apply_then_inverse(d0, c);
                    assert(u0.push(c).drop_last() =~= u0);
                    lemma_unapply_bounded(doc@, u0, c, self.capacity as nat);
                    assert(old(self).redo@.drop_last() =~= self.redo@);
                }
                if self.capacity == 0 {
                    assert(bounded_push(u0, c, 0) =~= self.undo@);
                } else {
                    if self.undo.len() == self.capacity {
                        self.undo.remove(0);
                    }
                    self.undo.push(c);
                    assert(bounded_push(u0, c, self.capacity as nat) =~= self.undo@);
                }
                true
            },
        }
    }
}

} // verus!
