//! The boot panel's data: firmware and boot-loader facts and the loader
//! entries found on disk.  The shell walks the loader directories and
//! reads the firmware variables; the secure-boot variable is decoded
//! here.

use vstd::prelude::*;

verus! {

/// The gathered boot snapshot.
pub struct BootInfo {
    pub systemd_boot: bool,
    pub firmware: String,
    pub loader_version: String,
    pub secure_boot: String,
    pub setup_mode: String,
    pub entries: Vec<BootEntry>,
}

/// One loader entry.
pub struct BootEntry {
    pub id: String,
    pub title: String,
    pub version: Option<String>,
    pub machine_id: Option<String>,
    pub is_default: bool,
}

/// Decodes the firmware's secure-boot variable: four attribute bytes
/// followed by data whose last byte carries the state.  None for a
/// variable too short to carry any data.
pub fn decode_secure_boot(data: &Vec<u8>) -> (r: Option<String>)
    ensures
        (r is Some <==> data@.len() >= 5),
        data@.len() >= 5 ==> r->Some_0@ == (if data@.last() == 1u8 {
            "enabled"@
        } else if data@.last() == 0u8 {
            "disabled"@
        } else {
            "unknown"@
        }),
{
    if data.len() >= 5 {
        let b = data[data.len() - 1];
        if b == 1 {
            Some("enabled".to_owned())
        } else if b == 0 {
            Some("disabled".to_owned())
        } else {
            Some("unknown".to_owned())
        }
    } else {
        None
    }
}

/// The boot panel: the gathered snapshot with a cursor over the entries.
pub struct BootContext {
    pub info: Option<BootInfo>,
    pub error: Option<String>,
    pub selected_entry: usize,
}

impl BootContext {
    /// How many loader entries the snapshot holds.
    pub open spec fn entry_count(self) -> int {
        match self.info {
            Some(info) => info.entries@.len() as int,
            None => 0,
        }
    }

    /// The cursor lies in the entry list whenever it is non-empty.
    pub open spec fn wf(self) -> bool {
        self.entry_count() > 0 ==> (self.selected_entry as int) < self.entry_count()
    }

    /// An empty panel waiting for its first snapshot.
    pub fn new() -> (r: BootContext)
        ensures
            r.wf(),
            r.info is None,
            r.error is None,
            r.selected_entry == 0usize,
    {
        BootContext { info: None, error: None, selected_entry: 0 }
    }

    /// Applies the outcome of a gather, with the cursor reset.
    pub fn refresh(&mut self, result: Result<BootInfo, String>)
        ensures
            final(self).wf(),
            final(self).selected_entry == 0usize,
            (match result {
                Ok(info) => final(self).info == Some(info) && final(self).error is None,
                Err(e) => final(self).info is None && final(self).error == Some(e),
            }),
    {
        match result {
            Ok(info) => {
                self.info = Some(info);
                self.error = None;
            }
            Err(e) => {
                self.info = None;
                self.error = Some(e);
            }
        }
        self.selected_entry = 0;
    }

    /// Moves the cursor up one entry, clamped at the top.
    pub fn move_up(&mut self)
        requires
            old(self).wf(),
        ensures
            final(self).wf(),
            final(self).selected_entry as int == (if old(self).entry_count() > 0 && old(self).selected_entry > 0 {
                old(self).selected_entry - 1
            } else {
                old(self).selected_entry as int
            }),
            final(self).info == old(self).info,
            final(self).error == old(self).error,
    {
        let count = match &self.info {
            Some(info) => info.entries.len(),
            None => 0,
        };
        if count > 0 && self.selected_entry > 0 {
            self.selected_entry = self.selected_entry - 1;
        }
    }

    /// Moves the cursor down one entry, clamped at the bottom.
    pub fn move_down(&mut self)
        requires
            old(self).wf(),
        ensures
            final(self).wf(),
            final(self).selected_entry as int == (if old(self).selected_entry + 1 < old(self).entry_count() {
                old(self).selected_entry + 1
            } else {
                old(self).selected_entry as int
            }),
            final(self).info == old(self).info,
            final(self).error == old(self).error,
    {
        let count = match &self.info {
            Some(info) => info.entries.len(),
            None => 0,
        };
        if count > 0 && self.selected_entry + 1 < count {
            self.selected_entry = self.selected_entry + 1;
        }
    }
}

} // verus!
