//! The boundary through which plugins submit commands: each goes through the
//! same validated path as a built-in tool, and only for the kinds of mutation
//! the plugin has been granted.

use vstd::prelude::*;
use crate::document::{Document, EditCommand, apply_spec};
use crate::history::{HistoryStack, bounded_push};
use crate::pixel::EditorError;

verus! {

/// The kind of mutation a command makes.
#[derive(Clone, Copy, Debug, PartialEq, Eq, Structural)]
pub enum CommandKind {
    Paint,
    Resize,
    Layers,
    Frames,
    Palette,
}

pub open spec fn kind_of(c: EditCommand) -> CommandKind {
    match c {
        EditCommand::Paint { .. } => CommandKind::Paint,
        EditCommand::Resize { .. } => CommandKind::Resize,
        EditCommand::AddLayer { .. } | EditCommand::RemoveLayer { .. } => CommandKind::Layers,
        EditCommand::AddFrame { .. } | EditCommand::RemoveFrame { .. } => CommandKind::Frames,
        EditCommand::AddColor { .. } | EditCommand::RemoveColor { .. } => CommandKind::Palette,
    }
}

impl EditCommand {
    pub fn kind(&self) -> (k: CommandKind)
        ensures
            k == kind_of(*self),
    {
        match self {
            EditCommand::Paint { .. } => CommandKind::Paint,
            EditCommand::Resize { .. } => CommandKind::Resize,
            EditCommand::AddLayer { .. } | EditCommand::RemoveLayer { .. } => CommandKind::Layers,
            EditCommand::AddFrame { .. } | EditCommand::RemoveFrame { .. } => CommandKind::Frames,
            EditCommand::AddColor { .. } | EditCommand::RemoveColor { .. } => CommandKind::Palette,
        }
    }
}

/// The kinds of mutation a plugin may submit.
#[derive(Clone, Copy, Debug, PartialEq, Eq, Structural)]
pub struct Capabilities {
    pub paint: bool,
    pub resize: bool,
    pub layers: bool,
    pub frames: bool,
    pub palette: bool,
}

pub open spec fn allows(caps: Capabilities, k: CommandKind) -> bool {
    match k {
        CommandKind::Paint => caps.paint,
        CommandKind::Resize => caps.resize,
        CommandKind::Layers => caps.layers,
        CommandKind::Frames => caps.frames,
        CommandKind::Palette => caps.palette,
    }
}

impl Capabilities {
    /// A grant of nothing: the plugin may only look.
    pub fn view_only() -> (c: Capabilities)
        ensures
            forall|k: CommandKind| !allows(c, k),
    {
        Capabilities { paint: false, resize: false, layers: false, frames: false, palette: false }
    }

    pub fn allows(&self, k: CommandKind) -> (r: bool)
        ensures
            r == allows(*self, k),
    {
        match k {
            CommandKind::Paint => self.paint,
            CommandKind::Resize => self.resize,
            CommandKind::Layers => self.layers,
            CommandKind::Frames => self.frames,
            CommandKind::Palette => self.palette,
        }
    }
}

/// What the registry knows of one plugin.
#[derive(Debug)]
pub struct PluginDescriptor {
    pub id: u32,
    pub name: String,
    pub capabilities: Capabilities,
}

/// The capabilities of the first plugin in `ps` with identifier `id`.
pub open spec fn grant_of(ps: Seq<PluginDescriptor>, id: u32) -> Option<Capabilities>
    decreases ps.len(),
{
    if ps.len() == 0 {
        None
    } else if ps[0].id == id {
        Some(ps[0].capabilities)
    } else {
        grant_of(ps.drop_first(), id)
    }
}

/// The plugins known to the editor, with their grants.
#[derive(Debug)]
pub struct PluginRegistry {
    plugins: Vec<PluginDescriptor>,
}

impl PluginRegistry {
    pub closed spec fn entries(&self) -> Seq<PluginDescriptor> {
        self.plugins@
    }

    pub fn new() -> (r: PluginRegistry)
        ensures
            r.entries() == Seq::<PluginDescriptor>::empty(),
    {
        let r = PluginRegistry { plugins: Vec::new() };
        assert(r.plugins@ =~= Seq::<PluginDescriptor>::empty());
        r
    }

    /// Adds a plugin at the end of the list.
    pub fn register(&mut self, p: PluginDescriptor)
        ensures
            final(self).entries() == old(self).entries().push(p),
    {
        self.plugins.push(p);
    }

    pub fn list_plugins(&self) -> (r: &Vec<PluginDescriptor>)
        ensures
            r@ == self.entries(),
    {
        &self.plugins
    }

    fn find(&self, id: u32) -> (r: Option<usize>)
        ensures
            r is None ==> grant_of(self.entries(), id) is None,
            r is Some ==> r->Some_0 < self.entries().len() && grant_of(self.entries(), id) == Some(
                self.entries()[r->Some_0 as int].capabilities,
            ) && self.entries()[r->Some_0 as int].id == id && forall|k: int|
                0 <= k < r->Some_0 ==> self.entries()[k].id != id,
    {
        let mut i: usize = 0;
        assert(self.plugins@.subrange(0, self.plugins@.len() as int) =~= self.plugins@);
        while i < self.plugins.len()
            invariant
                i <= self.plugins@.len(),
                grant_of(self.plugins@, id) == grant_of(self.plugins@.subrange(i as int, self.plugins@.len() as int), id),
                forall|k: int| 0 <= k < i ==> self.plugins@[k].id != id,
            decreases self.plugins@.len() - i,
        {
            let ghost rest = self.plugins@.subrange(i as int, self.plugins@.len() as int);
            if self.plugins[i].id == id {
                return Some(i);
            }
            assert(rest.drop_first() =~= self.plugins@.subrange(i + 1, self.plugins@.len() as int));
            i = i + 1;
        }
        assert(self.plugins@.subrange(i as int, self.plugins@.len() as int).len() == 0);
        None
    }

    /// Replaces the grant of the first plugin with identifier `id`, leaving
    /// every other entry as it was; false where there is none.
    pub fn configure(&mut self, id: u32, caps: Capabilities) -> (r: bool)
        ensures
            r == grant_of(old(self).entries(), id) is Some,
            r ==> grant_of(final(self).entries(), id) == Some(caps),
            r ==> exists|i: int|
                0 <= i < old(self).entries().len() && old(self).entries()[i].id == id && (forall|k: int|
                    0 <= k < i ==> old(self).entries()[k].id != id) && final(self).entries()
                    == old(self).entries().update(
                    i,
                    PluginDescriptor { capabilities: caps, ..old(self).entries()[i] },
                ),
            !r ==> final(self).entries() == old(self).entries(),
    {
        match self.find(id) {
            None => false,
            Some(i) => {
                let ghost s0 = self.plugins@;
                self.plugins[i].capabilities = caps;
                proof {
                    lemma_grant_update(s0, i as int, id, caps, self.plugins@);
                    assert(self.plugins@ =~= s0.update(
                        i as int,
                        PluginDescriptor { capabilities: caps, ..s0[i as int] },
                    ));
                }
                true
            },
        }
    }

    /// Submits `cmd` on behalf of plugin `id`. A plugin that is unknown or
    /// lacks the grant for the command's kind fails with `Unauthorized`,
    /// changing nothing; otherwise the command goes through `history` as any
    /// tool's would.
    pub fn submit_command(
        &self,
        id: u32,
        cmd: EditCommand,
        history: &mut HistoryStack,
        doc: &mut Document,
    ) -> (r: Result<(), EditorError>)
        requires
            old(history).tracks(old(doc)@),
        ensures
            final(history).tracks(final(doc)@),
            final(history).limit() == old(history).limit(),
            ({
                let g = grant_of(self.entries(), id);
                &&& (g is None || !allows(g->Some_0, kind_of(cmd))) ==> r == Err::<(), EditorError>(
                    EditorError::Unauthorized,
                ) && final(doc)@ == old(doc)@ && final(history).undo_entries() == old(
                    history,
                ).undo_entries() && final(history).redo_entries() == old(history).redo_entries()
                &&& (g is Some && allows(g->Some_0, kind_of(cmd))) ==> {
                    &&& apply_spec(old(doc)@, cmd) is Ok ==> r is Ok && final(doc)@ == apply_spec(
                        old(doc)@,
                        cmd,
                    )->Ok_0 && final(history).undo_entries() == bounded_push(
                        old(history).undo_entries(),
                        cmd,
                        old(history).limit(),
                    ) && final(history).redo_entries() == Seq::<EditCommand>::empty()
                    &&& apply_spec(old(doc)@, cmd) is Err ==> r == Err::<(), EditorError>(
                        apply_spec(old(doc)@, cmd)->Err_0,
                    ) && final(doc)@ == old(doc)@ && final(history).undo_entries() == old(
                        history,
                    ).undo_entries() && final(history).redo_entries() == old(
                        history,
                    ).redo_entries()
                }
            }),
    {
        match self.find(id) {
            None => Err(EditorError::Unauthorized),
            Some(i) => {
                if !self.plugins[i].capabilities.allows(cmd.kind()) {
                    Err(EditorError::Unauthorized)
                } else {
                    history.push_and_apply(cmd, doc)
                }
            },
        }
    }
}

proof fn lemma_grant_update(s0: Seq<PluginDescriptor>, i: int, id: u32, caps: Capabilities, s1: Seq<PluginDescriptor>)
    requires
        0 <= i < s0.len(),
        s1.len() == s0.len(),
        s0[i].id == id,
        forall|k: int| 0 <= k < i ==> s0[k].id != id,
        grant_of(s0, id) == Some(s0[i].capabilities),
        s1[i] == (PluginDescriptor { capabilities: caps, ..s0[i] }),
        forall|k: int| 0 <= k < s0.len() && k != i ==> s1[k] == s0[k],
    ensures
        grant_of(s1, id) == Some(caps),
    decreases s0.len(),
{
    if s0[0].id != id {
        assert(i > 0);
        assert(s1[0] == s0[0]);
        assert(grant_of(s0, id) == grant_of(s0.drop_first(), id));
        assert(s0.drop_first()[i - 1] == s0[i]);
        lemma_grant_update(s0.drop_first(), i - 1, id, caps, s1.drop_first());
    }
}

} // verus!
