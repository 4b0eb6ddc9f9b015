//! The top-level state: which panel is active, the help overlay, and the
//! panels themselves.  The shell owns the terminal and the outside
//! connections; every key it forwards lands here.

use vstd::prelude::*;

use crate::boot::BootContext;
use crate::dns::DnsContext;
use crate::host::HostContext;
use crate::logs::LogsContext;
use crate::network::NetworkContext;
use crate::units::{workflow_step, Key, UnitsContext};

verus! {

/// How many panels the dashboard cycles through.
pub const CONTEXT_COUNT: usize = 6;


/// What one key does to the ambient log panel: cursor steps, page moves,
/// the follow and pause flips, and the clear, each pinned; any other key
/// leaves the panel alone.  The reload key is the shell's, since it needs
/// an outside read.
pub open spec fn logs_key_effect(pre: LogsContext, post: LogsContext, key: Key) -> bool {
    &&& ((key == Key::Char('j') || key == Key::Down) ==> post.entries@ == pre.entries@ && (
    pre.selected + 1 < pre.entries@.len() ==> post.selected == pre.selected + 1) && (pre.selected
        + 1 >= pre.entries@.len() ==> post == pre))
    &&& ((key == Key::Char('k') || key == Key::Up) ==> post.entries@ == pre.entries@ && (
    pre.selected > 0 ==> post.selected == pre.selected - 1 && !post.follow_mode) && (pre.selected
        == 0 ==> post == pre))
    &&& ((key == Key::Char(' ') || key == Key::PageDown) ==> post.entries@ == pre.entries@ && ({
        let len1 = if pre.entries@.len() > 0 {
            pre.entries@.len() - 1
        } else {
            0int
        };
        post.selected as int == (if pre.selected + 10 <= len1 {
            pre.selected + 10
        } else {
            len1
        }) && post.follow_mode == (post.selected as int == len1 || pre.follow_mode)
    }))
    &&& ((key == Key::Char('b') || key == Key::PageUp) ==> post.entries@ == pre.entries@
        && post.selected as int == (if pre.selected >= 10 {
        pre.selected - 10
    } else {
        0int
    }) && !post.follow_mode)
    &&& (key == Key::Char('G') ==> post.entries@ == pre.entries@ && post.follow_mode && (
    pre.entries@.len() > 0 ==> post.selected as int == pre.entries@.len() - 1))
    &&& (key == Key::Char('g') ==> post.entries@ == pre.entries@ && post.selected == 0
        && !post.follow_mode)
    &&& (key == Key::Char('p') ==> post.paused == !pre.paused && post.entries@ == pre.entries@
        && post.selected == pre.selected && post.follow_mode == pre.follow_mode)
    &&& (key == Key::Char('f') ==> post.follow_mode == !pre.follow_mode && post.entries@
        == pre.entries@ && post.paused == pre.paused && (post.follow_mode && pre.entries@.len()
        > 0 ==> post.selected as int == pre.entries@.len() - 1) && (!post.follow_mode
        ==> post.selected == pre.selected))
    &&& (key == Key::Char('c') ==> post.entries@.len() == 0 && post.selected == 0
        && post.same_config(pre))
    &&& (!(key is Char || key == Key::Up || key == Key::Down || key == Key::PageUp || key
        == Key::PageDown) ==> post == pre)
}

/// The dashboard: its panels and the cursor over them.
pub struct App {
    pub current_context: usize,
    pub show_help: bool,
    pub units: UnitsContext,
    pub network: NetworkContext,
    pub dns: DnsContext,
    pub host: HostContext,
    pub boot: BootContext,
    pub logs: LogsContext,
    pub error_message: Option<String>,
}

impl App {
    /// The panel cursor stays in range and every panel keeps its own
    /// invariant.
    pub open spec fn wf(self) -> bool {
        &&& self.current_context < CONTEXT_COUNT
        &&& self.units.wf()
        &&& self.network.wf()
        &&& self.dns.wf()
        &&& self.boot.wf()
        &&& self.logs.wf()
    }

    /// A dashboard with every panel empty, opened on the unit catalog.
    pub fn new() -> (r: App)
        ensures
            r.wf(),
            r.current_context == 0usize,
            !r.show_help,
            r.error_message is None,
    {
        App {
            current_context: 0,
            show_help: false,
            units: UnitsContext::new(),
            network: NetworkContext::new(),
            dns: DnsContext::new(),
            host: HostContext::new(),
            boot: BootContext::new(),
            logs: LogsContext::new(),
            error_message: None,
        }
    }

    /// The index of the active panel.
    pub fn current_context(&self) -> (r: usize)
        ensures
            r == self.current_context,
    {
        self.current_context
    }

    /// The name of the active panel.
    pub fn context_name(&self) -> (r: &'static str)
        ensures
            self.current_context == 0 ==> r@ == "Units"@,
            self.current_context == 1 ==> r@ == "Network"@,
            self.current_context == 2 ==> r@ == "DNS"@,
            self.current_context == 3 ==> r@ == "Host"@,
            self.current_context == 4 ==> r@ == "Boot"@,
            self.current_context == 5 ==> r@ == "Logs"@,
            self.current_context >= 6 ==> r@ == "Unknown"@,
    {
        if self.current_context == 0 {
            "Units"
        } else if self.current_context == 1 {
            "Network"
        } else if self.current_context == 2 {
            "DNS"
        } else if self.current_context == 3 {
            "Host"
        } else if self.current_context == 4 {
            "Boot"
        } else if self.current_context == 5 {
            "Logs"
        } else {
            "Unknown"
        }
    }

    /// Cycles to the next panel.
    pub fn next_context(&mut self)
        requires
            old(self).wf(),
        ensures
            final(self).wf(),
            final(self).current_context as int == (old(self).current_context + 1) % (
            CONTEXT_COUNT as int),
            final(self).units == old(self).units,
            final(self).logs == old(self).logs,
    {
        self.current_context = (self.current_context + 1) % CONTEXT_COUNT;
    }

    /// Cycles to the previous panel.
    pub fn prev_context(&mut self)
        requires
            old(self).wf(),
        ensures
            final(self).wf(),
            final(self).current_context as int == (if old(self).current_context == 0 {
                CONTEXT_COUNT - 1
            } else {
                old(self).current_context - 1
            }),
            final(self).units == old(self).units,
            final(self).logs == old(self).logs,
    {
        if self.current_context == 0 {
            self.current_context = CONTEXT_COUNT - 1;
        } else {
            self.current_context = self.current_context - 1;
        }
    }

    /// Jumps to a panel; an index out of range is ignored.
    pub fn set_context(&mut self, ctx: usize)
        requires
            old(self).wf(),
        ensures
            final(self).wf(),
            ctx < CONTEXT_COUNT ==> final(self).current_context == ctx,
            ctx >= CONTEXT_COUNT ==> final(self).current_context == old(self).current_context,
            final(self).units == old(self).units,
            final(self).logs == old(self).logs,
    {
        if ctx < CONTEXT_COUNT {
            self.current_context = ctx;
        }
    }

    /// Shows the help overlay when hidden and hides it when shown.
    pub fn toggle_help(&mut self)
        requires
            old(self).wf(),
        ensures
            final(self).wf(),
            final(self).show_help == !old(self).show_help,
            final(self).current_context == old(self).current_context,
    {
        self.show_help = !self.show_help;
    }

    /// Whether the help overlay is up.
    pub fn show_help(&self) -> (r: bool)
        ensures
            r == self.show_help,
    {
        self.show_help
    }

    /// Routes one key: any key closes the help overlay first; otherwise
    /// the active panel takes it.  Returns the name of the unit whose
    /// recent records the shell should now read, if the catalog asked for
    /// one.
    pub fn handle_key(&mut self, key: Key) -> (r: Option<String>)
        requires
            old(self).wf(),
        ensures
            final(self).wf(),
            old(self).show_help ==> !final(self).show_help && final(self).units == old(self).units && final(self).logs == old(self).logs && final(self).network == old(self).network && final(self).dns == old(self).dns && final(self).host == old(self).host
                && final(self).boot == old(self).boot && final(self).current_context == old(self).current_context && final(self).error_message == old(self).error_message
                && r is None,
            !old(self).show_help ==> final(self).current_context == old(self).current_context
                && final(self).show_help == old(self).show_help && final(self).error_message
                == old(self).error_message && final(self).host == old(self).host,
            (!old(self).show_help && old(self).current_context != 0) ==> final(self).units == old(self).units && r is None,
            (!old(self).show_help && old(self).current_context != 5) ==> final(self).logs == old(self).logs,
            (!old(self).show_help && old(self).current_context != 1) ==> final(self).network
                == old(self).network,
            (!old(self).show_help && old(self).current_context != 2) ==> final(self).dns == old(self).dns,
            (!old(self).show_help && old(self).current_context != 4) ==> final(self).boot == old(self).boot,
            (!old(self).show_help && old(self).current_context == 0) ==> {
                &&& (final(self).units.confirm_action, final(self).units.pending_action)
                    == workflow_step(
                    old(self).units.detail_unit is Some,
                    old(self).units.confirm_action,
                    old(self).units.pending_action,
                    old(self).units.show_filter,
                    old(self).units.unit_selected_spec(),
                    key,
                )
                &&& (r is Some <==> ((old(self).units.detail_unit is Some && old(self).units.confirm_action is None && key == Key::Char('r')) || (old(self).units.detail_unit is None && !old(self).units.show_filter && key == Key::Enter
                    && old(self).units.unit_selected_spec())))
            },
            (!old(self).show_help && old(self).current_context == 1) ==> {
                &&& final(self).network.info == old(self).network.info
                &&& final(self).network.error == old(self).network.error
                &&& ((key == Key::Char('j') || key == Key::Down) ==> final(self).network.selected_interface as int == (if old(self).network.selected_interface
                    + 1 < old(self).network.iface_count() {
                    old(self).network.selected_interface + 1
                } else {
                    old(self).network.selected_interface as int
                }))
                &&& ((key == Key::Char('k') || key == Key::Up) ==> final(self).network.selected_interface as int == (if old(self).network.selected_interface
                    > 0 {
                    old(self).network.selected_interface - 1
                } else {
                    0int
                }))
                &&& (key == Key::Char('g') ==> final(self).network.selected_interface == 0)
                &&& (key == Key::Char('G') && old(self).network.iface_count() > 0 ==> final(self).network.selected_interface as int == old(self).network.iface_count() - 1)
                &&& (!(key is Char || key == Key::Up || key == Key::Down || key == Key::PageUp
                    || key == Key::PageDown) ==> final(self).network == old(self).network)
            },
            (!old(self).show_help && old(self).current_context == 2) ==> {
                &&& final(self).dns.info == old(self).dns.info
                &&& final(self).dns.error == old(self).dns.error
                &&& ((key == Key::Char('j') || key == Key::Down) ==> final(self).dns.selected_interface as int == (if old(self).dns.selected_interface + 1 < old(self).dns.iface_count() {
                    old(self).dns.selected_interface + 1
                } else {
                    old(self).dns.selected_interface as int
                }))
                &&& ((key == Key::Char('k') || key == Key::Up) ==> final(self).dns.selected_interface as int == (if old(self).dns.iface_count() > 0 && old(self).dns.selected_interface > 0 {
                    old(self).dns.selected_interface - 1
                } else {
                    old(self).dns.selected_interface as int
                }))
            },
            (!old(self).show_help && old(self).current_context == 4) ==> {
                &&& final(self).boot.info == old(self).boot.info
                &&& final(self).boot.error == old(self).boot.error
                &&& ((key == Key::Char('j') || key == Key::Down) ==> final(self).boot.selected_entry as int == (if old(self).boot.selected_entry + 1 < old(self).boot.entry_count() {
                    old(self).boot.selected_entry + 1
                } else {
                    old(self).boot.selected_entry as int
                }))
                &&& ((key == Key::Char('k') || key == Key::Up) ==> final(self).boot.selected_entry as int == (if old(self).boot.entry_count() > 0 && old(self).boot.selected_entry > 0 {
                    old(self).boot.selected_entry - 1
                } else {
                    old(self).boot.selected_entry as int
                }))
            },
            (!old(self).show_help && old(self).current_context == 5) ==> logs_key_effect(
                old(self).logs,
                final(self).logs,
                key,
            ),
    {
        if self.show_help {
            self.show_help = false;
            return None;
        }
        if self.current_context == 0 {
            return self.units.handle_key(key);
        }
        if self.current_context == 5 {
            self.handle_logs_key(key);
            return None;
        }
        match key {
            Key::Char(c) => {
                if self.current_context == 1 {
                    if c == 'j' {
                        self.network.move_down();
                    } else if c == 'k' {
                        self.network.move_up();
                    } else if c == ' ' {
                        self.network.page_down();
                    } else if c == 'b' {
                        self.network.page_up();
                    } else if c == 'g' {
                        self.network.go_top();
                    } else if c == 'G' {
                        self.network.go_bottom();
                    }
                } else if self.current_context == 2 {
                    if c == 'j' {
                        self.dns.move_down();
                    } else if c == 'k' {
                        self.dns.move_up();
                    }
                } else if self.current_context == 4 {
                    if c == 'j' {
                        self.boot.move_down();
                    } else if c == 'k' {
                        self.boot.move_up();
                    }
                }
                None
            }
            Key::Down => {
                if self.current_context == 1 {
                    self.network.move_down();
                } else if self.current_context == 2 {
                    self.dns.move_down();
                } else if self.current_context == 4 {
                    self.boot.move_down();
                }
                None
            }
            Key::Up => {
                if self.current_context == 1 {
                    self.network.move_up();
                } else if self.current_context == 2 {
                    self.dns.move_up();
                } else if self.current_context == 4 {
                    self.boot.move_up();
                }
                None
            }
            Key::PageDown => {
                if self.current_context == 1 {
                    self.network.page_down();
                }
                None
            }
            Key::PageUp => {
                if self.current_context == 1 {
                    self.network.page_up();
                }
                None
            }
            _ => None,
        }
    }

    /// Routes one key to the ambient log panel.
    fn handle_logs_key(&mut self, key: Key)
        requires
            old(self).wf(),
        ensures
            final(self).wf(),
            final(self).current_context == old(self).current_context,
            final(self).show_help == old(self).show_help,
            final(self).error_message == old(self).error_message,
            final(self).units == old(self).units,
            final(self).network == old(self).network,
            final(self).dns == old(self).dns,
            final(self).host == old(self).host,
            final(self).boot == old(self).boot,
            logs_key_effect(old(self).logs, final(self).logs, key),
    {
        match key {
            Key::Char(c) => {
                if c == 'j' {
                    self.logs.move_down();
                } else if c == 'k' {
                    self.logs.move_up();
                } else if c == ' ' {
                    self.logs.page_down();
                } else if c == 'b' {
                    self.logs.page_up();
                } else if c == 'G' {
                    self.logs.scroll_to_bottom();
                    self.logs.follow_mode = true;
                } else if c == 'g' {
                    self.logs.selected = 0;
                    self.logs.follow_mode = false;
                } else if c == 'p' {
                    self.logs.toggle_pause();
                } else if c == 'f' {
                    self.logs.toggle_follow();
                } else if c == 'c' {
                    self.logs.clear();
                }
            }
            Key::Down => {
                self.logs.move_down();
            }
            Key::Up => {
                self.logs.move_up();
            }
            Key::PageDown => {
                self.logs.page_down();
            }
            Key::PageUp => {
                self.logs.page_up();
            }
            _ => {}
        }
    }


    /// The unit catalog panel.
    pub fn units(&self) -> (r: &UnitsContext)
        ensures
            r == &self.units,
    {
        &self.units
    }

    /// The network panel.
    pub fn network(&self) -> (r: &NetworkContext)
        ensures
            r == &self.network,
    {
        &self.network
    }

    /// The DNS panel.
    pub fn dns(&self) -> (r: &DnsContext)
        ensures
            r == &self.dns,
    {
        &self.dns
    }

    /// The host panel.
    pub fn host(&self) -> (r: &HostContext)
        ensures
            r == &self.host,
    {
        &self.host
    }

    /// The boot panel.
    pub fn boot(&self) -> (r: &BootContext)
        ensures
            r == &self.boot,
    {
        &self.boot
    }

    /// The ambient log panel.
    pub fn logs(&self) -> (r: &LogsContext)
        ensures
            r == &self.logs,
    {
        &self.logs
    }

    /// The message line shown in place of the content, if any.
    pub fn error_message(&self) -> (r: Option<&String>)
        ensures
            (r is Some <==> self.error_message is Some),
            r is Some ==> r->Some_0@ == self.error_message->Some_0@,
    {
        self.error_message.as_ref()
    }

    /// Records an error to show.
    pub fn set_error(&mut self, msg: String)
        requires
            old(self).wf(),
        ensures
            final(self).wf(),
            final(self).error_message == Some(msg),
    {
        self.error_message = Some(msg);
    }

    /// Clears the error line.
    pub fn clear_error(&mut self)
        requires
            old(self).wf(),
        ensures
            final(self).wf(),
            final(self).error_message is None,
    {
        self.error_message = None;
    }
}

} // verus!
