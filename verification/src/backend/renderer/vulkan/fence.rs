//! Fences on the timeline of the renderer's submissions.

use vstd::prelude::*;

use crate::backend::renderer::vulkan::device::CleanupItem;

verus! {

/// A semaphore that a submission signals, for its export as a sync file.
///
/// The export has wait semantics, so that it happens at most once. The resulting file is kept
/// and duplicated for further exports.
#[derive(Debug, Clone, Copy, PartialEq, Eq, Structural)]
pub enum BinarySemaphore {
    /// The semaphore has a pending or reached signal operation and was not exported yet.
    Unexported(u64),
    /// The semaphore's payload was exported into the given sync file.
    Exported(u64, i32),
    /// The export failed; the semaphore cannot be used further.
    Failed(u64),
}

/// What has to be done to export a fence.
#[derive(Debug, Clone, Copy, PartialEq, Eq, Structural)]
pub enum ExportAction {
    /// There is nothing to export.
    Refuse,
    /// Duplicate the given sync file.
    Duplicate(i32),
    /// Export the given semaphore, and report the outcome.
    Export(u64),
}

impl BinarySemaphore {
    /// The semaphore, whatever became of it.
    pub open spec fn semaphore(self) -> u64 {
        match self {
            BinarySemaphore::Unexported(semaphore) => semaphore,
            BinarySemaphore::Exported(semaphore, _) => semaphore,
            BinarySemaphore::Failed(semaphore) => semaphore,
        }
    }

    /// The handle of the semaphore.
    pub fn handle(&self) -> (handle: u64)
        ensures
            handle == self.semaphore(),
    {
        match self {
            BinarySemaphore::Unexported(semaphore) => *semaphore,
            BinarySemaphore::Exported(semaphore, _) => *semaphore,
            BinarySemaphore::Failed(semaphore) => *semaphore,
        }
    }

    /// What an export of the semaphore has to do.
    pub open spec fn export_action(self) -> ExportAction {
        match self {
            BinarySemaphore::Unexported(semaphore) => ExportAction::Export(semaphore),
            BinarySemaphore::Exported(_, file) => ExportAction::Duplicate(file),
            BinarySemaphore::Failed(_) => ExportAction::Refuse,
        }
    }

    /// The semaphore after its export gave a file, or failed.
    pub open spec fn after_export(self, file: Option<i32>) -> BinarySemaphore {
        match file {
            Some(file) => BinarySemaphore::Exported(self.semaphore(), file),
            None => BinarySemaphore::Failed(self.semaphore()),
        }
    }
}

/// A fence for a point on the timeline of the submissions.
#[derive(Debug, Clone, Copy, PartialEq, Eq, Structural)]
pub struct VulkanFence {
    /// The point that is signaled when the submission completes.
    pub point: u64,
    /// The semaphore that the same submission signals.
    pub binary: Option<BinarySemaphore>,
}

impl VulkanFence {
    /// Whether the point of the fence is reached, given the value of the timeline. A timeline
    /// that cannot be read counts as being past it.
    pub open spec fn is_reached(self, counter: Option<u64>) -> bool {
        counter matches Some(value) ==> value >= self.point
    }

    /// Whether the submission has completed, given the value of the timeline. A timeline that
    /// cannot be read counts as signaled.
    pub fn is_signaled(&self, counter: Option<u64>) -> (signaled: bool)
        ensures
            signaled == self.is_reached(counter),
    {
        match counter {
            Some(value) => value >= self.point,
            None => true,
        }
    }

    /// Whether the fence can be exported; `export_supported` tells whether the device can.
    pub fn is_exportable(&self, export_supported: bool) -> (exportable: bool)
        ensures
            exportable <==> self.binary is Some && export_supported,
    {
        self.binary.is_some() && export_supported
    }

    /// Starts to export the fence as a sync file.
    pub fn export(&self, export_supported: bool) -> (action: ExportAction)
        ensures
            action == match self.binary {
                Some(binary) if export_supported => binary.export_action(),
                _ => ExportAction::Refuse,
            },
    {
        if !export_supported {
            return ExportAction::Refuse;
        }
        match self.binary {
            Some(BinarySemaphore::Unexported(semaphore)) => ExportAction::Export(semaphore),
            Some(BinarySemaphore::Exported(_, file)) => ExportAction::Duplicate(file),
            Some(BinarySemaphore::Failed(_)) => ExportAction::Refuse,
            None => ExportAction::Refuse,
        }
    }

    /// Notes the sync file into which the semaphore was exported, or `None` if that failed.
    /// Returns what is left to be done: to duplicate the file, or nothing.
    pub fn exported(&mut self, file: Option<i32>) -> (action: ExportAction)
        requires
            old(self).binary matches Some(BinarySemaphore::Unexported(_)),
        ensures
            final(self).point == old(self).point,
            final(self).binary == Some(old(self).binary->0.after_export(file)),
            action == final(self).binary->0.export_action(),
    {
        if let Some(binary) = self.binary {
            let semaphore: u64 = binary.handle();
            match file {
                Some(file) => {
                    self.binary = Some(BinarySemaphore::Exported(semaphore, file));
                    return ExportAction::Duplicate(file);
                },
                None => {
                    self.binary = Some(BinarySemaphore::Failed(semaphore));
                },
            }
        }
        ExportAction::Refuse
    }

    /// The point and the resources that wait for it, when the fence is dropped.
    pub fn cleanup(&self) -> (r: (u64, Vec<CleanupItem>))
        ensures
            r.0 == self.point,
            r.1@ == match self.binary {
                Some(binary) => seq![CleanupItem::Semaphore(binary.semaphore())],
                None => Seq::<CleanupItem>::empty(),
            },
    {
        let mut items: Vec<CleanupItem> = Vec::new();
        if let Some(binary) = self.binary {
            items.push(CleanupItem::Semaphore(binary.handle()));
        }
        (self.point, items)
    }
}

/// A semaphore is exported at most once: whatever its export gives, no later one touches it
/// again. Later exports duplicate the same file, or give nothing if the export failed.
pub proof fn law_exported_at_most_once(binary: BinarySemaphore, file: Option<i32>)
    ensures
        !(binary.after_export(file).export_action() is Export),
        binary.after_export(file).semaphore() == binary.semaphore(),
        file matches Some(file) ==> binary.after_export(Some(file)).export_action()
            == ExportAction::Duplicate(file),
        file is None ==> binary.after_export(file).export_action() is Refuse,
{
}

/// A fence is reached exactly when the timeline has reached its point, or when the timeline cannot
/// be read any more. Later points are reached later.
pub proof fn law_fences_follow_the_timeline(fence: VulkanFence, later: VulkanFence, counter: u64)
    ensures
        fence.is_reached(None),
        fence.is_reached(Some(counter)) <==> fence.point <= counter,
        fence.point <= later.point && later.is_reached(Some(counter)) ==> fence.is_reached(
            Some(counter),
        ),
{
}

/// A semaphore that was never exported is exported; its file is handed out from then on. One whose
/// export failed is refused.
pub proof fn law_what_is_exported(semaphore: u64, file: i32)
    ensures
        BinarySemaphore::Unexported(semaphore).export_action() == ExportAction::Export(semaphore),
        BinarySemaphore::Exported(semaphore, file).export_action() == ExportAction::Duplicate(file),
        BinarySemaphore::Failed(semaphore).export_action() is Refuse,
        BinarySemaphore::Unexported(semaphore).semaphore() == semaphore,
        BinarySemaphore::Exported(semaphore, file).semaphore() == semaphore,
        BinarySemaphore::Failed(semaphore).semaphore() == semaphore,
{
}

} // verus!
