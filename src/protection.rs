use crate::class::NUM_CLASSES;
use crate::heap::{chunks_below, RSBMalloc};
use crate::layout::MemLayout;
use vstd::prelude::*;

verus! {

/// Rights flag that forbids every access to pages of a label.
pub const PKEY_DISABLE_ACCESS: i32 = 1;

/// Rights flag that forbids writes to pages of a label.
pub const PKEY_DISABLE_WRITE: i32 = 2;

/// What the current thread may do with the memory of a label.
#[derive(Clone, Copy, Debug, PartialEq, Eq, Structural)]
pub enum ProtectionLevel {
    DenyAll,
    ReadOnly,
    ReadWrite,
}

/// The error of creating a protection domain.
#[derive(Clone, Copy, Debug, PartialEq, Eq, Structural)]
pub enum ProtectionError {
    /// The kernel has no protection label left to issue.
    OutOfLabels,
}

/// The rights flags that put a label at `level`.
pub open spec fn flags_of(level: ProtectionLevel) -> i32 {
    match level {
        ProtectionLevel::DenyAll => PKEY_DISABLE_ACCESS,
        ProtectionLevel::ReadOnly => PKEY_DISABLE_WRITE,
        ProtectionLevel::ReadWrite => 0,
    }
}

impl ProtectionLevel {
    /// The rights flags for this level: deny-all disables access, read-only
    /// disables writes, read-write restricts nothing.
    pub fn to_flags(self) -> (r: i32)
        ensures
            r == flags_of(self),
    {
        match self {
            ProtectionLevel::DenyAll => PKEY_DISABLE_ACCESS,
            ProtectionLevel::ReadOnly => PKEY_DISABLE_WRITE,
            ProtectionLevel::ReadWrite => 0,
        }
    }
}

/// The outcome of asking the kernel for a label, which answers -1 when it has none
/// left and the label otherwise.
pub fn label_from_raw(raw: i32) -> (r: Result<i32, ProtectionError>)
    ensures
        raw == -1 ==> r == Err::<i32, ProtectionError>(ProtectionError::OutOfLabels),
        raw != -1 ==> r == Ok::<i32, ProtectionError>(raw),
{
    if raw == -1 {
        Err(ProtectionError::OutOfLabels)
    } else {
        Ok(raw)
    }
}

/// A scoped access level in force on the current thread: the label and the rights
/// it had before, to be put back when the scope ends, however it ends.
pub struct LevelScope {
    label: i32,
    saved: i32,
}

/// The rights of each label on the current thread after `flags` are written for
/// `label`.
pub open spec fn install(rights: Map<int, i32>, label: int, flags: i32) -> Map<int, i32> {
    rights.insert(label, flags)
}

impl LevelScope {
    /// The label the scope is for.
    pub closed spec fn label_of(&self) -> int {
        self.label as int
    }

    /// The rights the label had when the scope began.
    pub closed spec fn saved_rights(&self) -> i32 {
        self.saved
    }

    /// Begins a scope at `level` for `label`, whose rights read `current`: the scope
    /// keeps `current`, and the flags to write now come back beside it.
    pub fn enter(label: i32, current: i32, level: ProtectionLevel) -> (r: (LevelScope, i32))
        ensures
            r.0.label_of() == label,
            r.0.saved_rights() == current,
            r.1 == flags_of(level),
    {
        (LevelScope { label, saved: current }, level.to_flags())
    }

    /// The label the scope is for.
    pub fn label(&self) -> (r: i32)
        ensures
            r == self.label_of(),
    {
        self.label
    }

    /// Ends the scope: the flags to write back for the label.
    pub fn exit(&self) -> (r: i32)
        ensures
            r == self.saved_rights(),
    {
        self.saved
    }
}

/// A scoped level leaves the thread's rights as it found them: entering at any
/// level and writing back what the exit returns restores every label's rights,
/// and other labels are never touched.
pub proof fn lemma_scope_restores(
    rights: Map<int, i32>,
    label: int,
    level: ProtectionLevel,
    scope: LevelScope,
)
    requires
        rights.dom().contains(label),
        scope.label_of() == label,
        scope.saved_rights() == rights[label],
    ensures
        install(install(rights, label, flags_of(level)), label, scope.saved_rights()) == rights,
{
    assert(install(install(rights, label, flags_of(level)), label, scope.saved_rights()) =~= rights);
}

/// One step of tearing down a protection domain.
#[derive(Clone, Copy, Debug, PartialEq, Eq, Structural)]
pub enum TeardownStep {
    /// Unmap a chunk mapped with `layout` at `base`.
    Unmap { base: usize, layout: MemLayout },
    /// Give the label back to the kernel.
    ReleaseLabel { label: i32 },
}

/// Tears down a domain's heap: every chunk it ever took is unmapped, and only then
/// is its label given back, so no chunk is unmapped after the kernel forgot the
/// label. The heap is left empty.
pub fn teardown(heap: &mut RSBMalloc) -> (r: Vec<TeardownStep>)
    requires
        old(heap).wf(),
    ensures
        final(heap).wf(),
        r@.len() == chunks_below(old(heap).heap(), NUM_CLASSES as int).len() + 1,
        forall|i: int|
            0 <= i < r@.len() - 1 ==> #[trigger] r@[i] == (TeardownStep::Unmap {
                base: chunks_below(old(heap).heap(), NUM_CLASSES as int)[i].0,
                layout: chunks_below(old(heap).heap(), NUM_CLASSES as int)[i].1,
            }),
        r@.last() == (TeardownStep::ReleaseLabel { label: old(heap).label() as i32 }),
        forall|c: int|
            0 <= c < NUM_CLASSES ==> {
                &&& (#[trigger] final(heap).heap().bin(c)).free_stack().len() == 0
                &&& final(heap).heap().bin(c).chunk_bases().len() == 0
                &&& final(heap).heap().bin(c).live_cells().is_empty()
            },
{
    let label = heap.pkey();
    let chunks = heap.free_all();
    let mut steps: Vec<TeardownStep> = Vec::new();
    let mut i: usize = 0;
    while i < chunks.len()
        invariant
            i <= chunks@.len(),
            steps@.len() == i,
            forall|j: int|
                0 <= j < i ==> #[trigger] steps@[j] == (TeardownStep::Unmap {
                    base: chunks@[j].0,
                    layout: chunks@[j].1,
                }),
        decreases chunks@.len() - i,
    {
        let (base, layout) = chunks[i];
        steps.push(TeardownStep::Unmap { base, layout });
        i = i + 1;
    }
    steps.push(TeardownStep::ReleaseLabel { label });
    steps
}

} // verus!
