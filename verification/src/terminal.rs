//! The terminal dock: which terminals there are, which one is active, and whether the dock is open.
//!
//! A shell is started by the editor. Before a command that needs a new one the editor starts it, and
//! hands over its number, or none where that failed.

use vstd::prelude::*;

use crate::contribution::{Contributions, Offer};
use crate::doc::{lesser, min_of};
use crate::effect::{effects_view, emit, no_effects, Effect, EffectView, TerminalView};
use crate::number::{lemma_parsed, parse_usize, parsed};
use crate::text::{after_prefix, same, strip_start};

verus! {

/// The dock's state.
pub struct TerminalPlugin {
    /// The terminals, in tab order.
    pub order: Vec<u64>,
    /// The active tab.
    pub active: usize,
    pub open: bool,
    pub minimized: bool,
}

/// What the dock's state is.
pub struct Dock {
    pub order: Seq<u64>,
    pub active: int,
    pub open: bool,
    pub minimized: bool,
}

impl View for TerminalPlugin {
    type V = Dock;

    open spec fn view(&self) -> Dock {
        Dock {
            order: self.order@,
            active: self.active as int,
            open: self.open,
            minimized: self.minimized,
        }
    }
}

/// The dock after a step, and what it asks for.
pub struct DockStep {
    pub dock: Dock,
    pub out: Seq<EffectView>,
}

impl Dock {
    /// The active tab is one of the tabs.
    pub open spec fn wf(self) -> bool {
        if self.order.len() == 0 {
            self.active == 0
        } else {
            0 <= self.active < self.order.len()
        }
    }

    /// The dock's request.
    pub open spec fn shown(self) -> EffectView {
        EffectView::SetTerminalView {
            open: self.open,
            minimized: self.minimized,
            active: self.active,
            order: self.order,
        }
    }

    /// A new terminal is the last tab and active; without a shell a message says so.
    pub open spec fn spawned(self, shell: Option<u64>) -> DockStep {
        match shell {
            Some(id) => DockStep {
                dock: Dock {
                    order: self.order.push(id),
                    active: self.order.len() as int,
                    ..self
                },
                out: Seq::empty(),
            },
            None => DockStep {
                dock: self,
                out: seq![EffectView::Notify("Failed to start terminal"@)],
            },
        }
    }

    /// The dock is opened, with a first terminal where there is none, and has the keys. Without a
    /// terminal it stays shut.
    pub open spec fn focused(self, shell: Option<u64>) -> DockStep {
        let d = Dock { open: true, minimized: false, ..self };
        if self.order.len() > 0 {
            DockStep { dock: d, out: seq![EffectView::SetTerminalFocus(true)] }
        } else {
            let s = d.spawned(shell);
            if shell is Some {
                DockStep { dock: s.dock, out: s.out.push(EffectView::SetTerminalFocus(true)) }
            } else {
                DockStep { dock: Dock { open: false, ..s.dock }, out: s.out }
            }
        }
    }

    /// The dock is shut where it is in view, and opened where it is not.
    pub open spec fn toggled(self, shell: Option<u64>) -> DockStep {
        if self.open && !self.minimized {
            DockStep {
                dock: Dock { open: false, ..self },
                out: seq![EffectView::SetTerminalFocus(false)],
            }
        } else {
            self.focused(shell)
        }
    }

    /// A new terminal is opened. Where it does not start and there is no other, the dock is shut.
    pub open spec fn added(self, shell: Option<u64>) -> DockStep {
        let s = Dock { open: true, minimized: false, ..self }.spawned(shell);
        if shell is Some {
            DockStep { dock: s.dock, out: s.out.push(EffectView::SetTerminalFocus(true)) }
        } else {
            DockStep { dock: Dock { open: self.order.len() > 0, ..s.dock }, out: s.out }
        }
    }

    /// The active terminal is closed; the dock is shut with the last one.
    pub open spec fn closed(self) -> DockStep {
        if self.order.len() == 0 {
            DockStep { dock: self, out: Seq::empty() }
        } else {
            let rest = self.order.remove(self.active);
            let gone = seq![EffectView::CloseTerminal(self.order[self.active])];
            if rest.len() == 0 {
                DockStep {
                    dock: Dock { order: rest, active: 0, open: false, ..self },
                    out: gone.push(EffectView::SetTerminalFocus(false)),
                }
            } else {
                DockStep {
                    dock: Dock {
                        order: rest,
                        active: lesser(self.active, rest.len() - 1),
                        ..self
                    },
                    out: gone,
                }
            }
        }
    }

    /// The dock is minimized, or restored.
    pub open spec fn minimized(self) -> DockStep {
        if !self.open {
            DockStep { dock: self, out: Seq::empty() }
        } else {
            DockStep {
                dock: Dock { minimized: !self.minimized, ..self },
                out: seq![
                    EffectView::SetTerminalFocus(self.minimized && self.order.len() > 0),
                ],
            }
        }
    }

    /// The next tab is active, the first after the last.
    pub open spec fn next(self) -> Dock {
        if self.open && self.order.len() > 0 {
            Dock {
                active: if self.active + 1 == self.order.len() {
                    0
                } else {
                    self.active + 1
                },
                ..self
            }
        } else {
            self
        }
    }

    /// The tab before is active, the last before the first.
    pub open spec fn prev(self) -> Dock {
        if self.open && self.order.len() > 0 {
            Dock {
                active: if self.active == 0 {
                    self.order.len() - 1
                } else {
                    self.active - 1
                },
                ..self
            }
        } else {
            self
        }
    }

    /// A tab is active, and the dock has the keys; nothing where there is no such tab.
    pub open spec fn selected(self, i: int) -> DockStep {
        if i < self.order.len() {
            DockStep {
                dock: Dock { active: i, open: true, minimized: false, ..self },
                out: seq![EffectView::SetTerminalFocus(true)],
            }
        } else {
            DockStep { dock: self, out: Seq::empty() }
        }
    }

    /// What a command does, apart from showing the dock; nothing where it is not one of these.
    pub open spec fn commanded(self, command: Seq<char>, shell: Option<u64>) -> Option<DockStep> {
        if command == "terminal.toggle"@ {
            Some(self.toggled(shell))
        } else if command == "terminal.new"@ {
            Some(self.added(shell))
        } else if command == "terminal.close"@ {
            Some(self.closed())
        } else if command == "terminal.minimize"@ {
            Some(self.minimized())
        } else if command == "terminal.next"@ {
            Some(DockStep { dock: self.next(), out: Seq::empty() })
        } else if command == "terminal.prev"@ {
            Some(DockStep { dock: self.prev(), out: Seq::empty() })
        } else {
            None
        }
    }

    /// What a click on the dock's header does, apart from showing the dock; nothing where it is on
    /// nothing.
    pub open spec fn clicked(self, payload: Seq<char>, shell: Option<u64>) -> Option<DockStep> {
        match tab_of(payload, "select:"@) {
            Some(i) => Some(self.selected(i)),
            None => match tab_of(payload, "close:"@) {
                Some(i) => Some(
                    if i < self.order.len() {
                        Dock { active: i, ..self }.closed()
                    } else {
                        DockStep { dock: self, out: Seq::empty() }
                    },
                ),
                None => if payload == "minimize"@ {
                    Some(self.minimized())
                } else if payload == "new"@ {
                    Some(self.added(shell))
                } else {
                    None
                },
            },
        }
    }
}

/// A shut dock without terminals.
pub open spec fn shut() -> Dock {
    Dock { order: Seq::empty(), active: 0, open: false, minimized: false }
}

/// The tab that a payload names.
pub open spec fn tab_of(payload: Seq<char>, prefix: Seq<char>) -> Option<int> {
    match after_prefix(payload, prefix) {
        Some(rest) => parsed(rest, usize::MAX as int),
        None => None,
    }
}

/// The tab that a payload names.
fn read_tab(payload: &str, prefix: &str) -> (r: Option<usize>)
    ensures
        match r {
            Some(i) => tab_of(payload@, prefix@) == Some(i as int),
            None => tab_of(payload@, prefix@) is None,
        },
{
    match strip_start(payload, prefix) {
        Some(rest) => parse_usize(rest.as_str()),
        None => None,
    }
}

fn copy_ids(v: &Vec<u64>) -> (r: Vec<u64>)
    ensures
        r@ == v@,
{
    let mut out: Vec<u64> = Vec::new();
    let mut i: usize = 0;
    while i < v.len()
        invariant
            i <= v.len(),
            out@ == v@.take(i as int),
        decreases v.len() - i,
    {
        out.push(v[i]);
        i += 1;
    }
    assert(v@.take(v@.len() as int) =~= v@);
    out
}

/// What the plugin contributes.
pub open spec fn contributed() -> Offer {
    Offer::none()
        .command("terminal.toggle"@, "Terminal: Toggle Panel"@)
        .command("terminal.new"@, "Terminal: New Terminal"@)
        .command("terminal.close"@, "Terminal: Close Active Terminal"@)
        .command("terminal.minimize"@, "Terminal: Minimize/Restore Panel"@)
        .command("terminal.next"@, "Terminal: Next Terminal"@)
        .command("terminal.prev"@, "Terminal: Previous Terminal"@)
        .keybinding("ctrl+j"@, "terminal.toggle"@)
        .keybinding("ctrl+`"@, "terminal.toggle"@)
        .keybinding("ctrl+pagedown"@, "terminal.next"@)
        .keybinding("ctrl+pageup"@, "terminal.prev"@)
}

impl TerminalPlugin {
    /// What the plugin contributes.
    pub fn contributions() -> (r: Contributions)
        ensures
            r@ == contributed(),
    {
        Contributions::builder()
            .command("terminal.toggle", "Terminal: Toggle Panel")
            .command("terminal.new", "Terminal: New Terminal")
            .command("terminal.close", "Terminal: Close Active Terminal")
            .command("terminal.minimize", "Terminal: Minimize/Restore Panel")
            .command("terminal.next", "Terminal: Next Terminal")
            .command("terminal.prev", "Terminal: Previous Terminal")
            .keybinding("ctrl+j", "terminal.toggle")
            .keybinding("ctrl+`", "terminal.toggle")
            .keybinding("ctrl+pagedown", "terminal.next")
            .keybinding("ctrl+pageup", "terminal.prev")
    }

    /// A shut dock without terminals.
    pub fn new() -> (r: TerminalPlugin)
        ensures
            r@ == shut(),
            r@.wf(),
    {
        let r = TerminalPlugin { order: Vec::new(), active: 0, open: false, minimized: false };
        assert(r.order@ =~= Seq::empty());
        r
    }

    /// Whether a command needs a new shell.
    pub fn command_needs_shell(&self, command_id: &str) -> (r: bool)
        ensures
            r == (command_id@ == "terminal.new"@ || (command_id@ == "terminal.toggle"@ && !(
            self.open && !self.minimized) && self.order@.len() == 0)),
    {
        same(command_id, "terminal.new") || (same(command_id, "terminal.toggle") && !(self.open
            && !self.minimized) && self.order.len() == 0)
    }

    /// Whether a click needs a new shell.
    pub fn click_needs_shell(&self, payload: &str) -> (r: bool)
        ensures
            r == (payload@ == "new"@),
    {
        same(payload, "new")
    }

    /// Show the dock.
    fn publish(&self, out: &mut Vec<Effect>)
        ensures
            effects_view(final(out)@) == effects_view(old(out)@).push(self@.shown()),
    {
        emit(
            out,
            Effect::SetTerminalView(
                TerminalView {
                    open: self.open,
                    minimized: self.minimized,
                    active: self.active,
                    order: copy_ids(&self.order),
                },
            ),
        );
    }

    /// Make a new terminal the last tab, and active.
    fn spawn(&mut self, shell: Option<u64>, out: &mut Vec<Effect>) -> (r: bool)
        requires
            effects_view(old(out)@) == Seq::<EffectView>::empty(),
        ensures
            r == shell is Some,
            final(self)@ == old(self)@.spawned(shell).dock,
            effects_view(final(out)@) == old(self)@.spawned(shell).out,
    {
        match shell {
            Some(id) => {
                self.order.push(id);
                self.active = self.order.len() - 1;
                true
            },
            None => {
                emit(out, Effect::Notify("Failed to start terminal".to_owned()));
                false
            },
        }
    }

    /// Open the dock and give it the keys.
    fn focus(&mut self, shell: Option<u64>, out: &mut Vec<Effect>)
        requires
            effects_view(old(out)@) == Seq::<EffectView>::empty(),
        ensures
            final(self)@ == old(self)@.focused(shell).dock,
            effects_view(final(out)@) == old(self)@.focused(shell).out,
    {
        self.open = true;
        self.minimized = false;
        if self.order.len() == 0 && !self.spawn(shell, out) {
            self.open = false;
            return;
        }
        emit(out, Effect::SetTerminalFocus(true));
    }

    /// Open a new terminal.
    fn new_terminal(&mut self, shell: Option<u64>, out: &mut Vec<Effect>)
        requires
            effects_view(old(out)@) == Seq::<EffectView>::empty(),
        ensures
            final(self)@ == old(self)@.added(shell).dock,
            effects_view(final(out)@) == old(self)@.added(shell).out,
    {
        self.open = true;
        self.minimized = false;
        if self.spawn(shell, out) {
            emit(out, Effect::SetTerminalFocus(true));
        } else if self.order.len() == 0 {
            // No empty dock is held open.
            self.open = false;
        }
    }

    /// Close the active terminal.
    fn close(&mut self, out: &mut Vec<Effect>)
        requires
            old(self)@.wf(),
            effects_view(old(out)@) == Seq::<EffectView>::empty(),
        ensures
            final(self)@ == old(self)@.closed().dock,
            effects_view(final(out)@) == old(self)@.closed().out,
    {
        if self.order.len() == 0 {
            return;
        }
        let id: u64 = self.order.remove(self.active);
        emit(out, Effect::CloseTerminal(id));
        if self.order.len() == 0 {
            self.active = 0;
            self.open = false;
            emit(out, Effect::SetTerminalFocus(false));
        } else {
            self.active = min_of(self.active, self.order.len() - 1);
        }
    }

    /// Minimize the dock, or restore it.
    fn minimize(&mut self, out: &mut Vec<Effect>)
        requires
            effects_view(old(out)@) == Seq::<EffectView>::empty(),
        ensures
            final(self)@ == old(self)@.minimized().dock,
            effects_view(final(out)@) == old(self)@.minimized().out,
    {
        if self.open {
            self.minimized = !self.minimized;
            emit(
                out,
                Effect::SetTerminalFocus(!self.minimized && self.order.len() > 0),
            );
        }
    }

    /// Run a command and show the dock; none where it is not one of these.
    pub fn run_command(&mut self, command_id: &str, shell: Option<u64>) -> (r: Option<Vec<Effect>>)
        requires
            old(self)@.wf(),
        ensures
            final(self)@.wf(),
            match old(self)@.commanded(command_id@, shell) {
                Some(step) => r is Some && final(self)@ == step.dock && effects_view(r->0@)
                    == step.out.push(step.dock.shown()),
                None => r is None && *final(self) == *old(self),
            },
    {
        let mut out: Vec<Effect> = no_effects();
        if same(command_id, "terminal.toggle") {
            if self.open && !self.minimized {
                self.open = false;
                emit(&mut out, Effect::SetTerminalFocus(false));
            } else {
                self.focus(shell, &mut out);
            }
        } else if same(command_id, "terminal.new") {
            self.new_terminal(shell, &mut out);
        } else if same(command_id, "terminal.close") {
            self.close(&mut out);
        } else if same(command_id, "terminal.minimize") {
            self.minimize(&mut out);
        } else if same(command_id, "terminal.next") {
            if self.open && self.order.len() > 0 {
                self.active = if self.active + 1 == self.order.len() {
                    0
                } else {
                    self.active + 1
                };
            }
        } else if same(command_id, "terminal.prev") {
            if self.open && self.order.len() > 0 {
                self.active = if self.active == 0 {
                    self.order.len() - 1
                } else {
                    self.active - 1
                };
            }
        } else {
            return None;
        }
        self.publish(&mut out);
        Some(out)
    }

    /// Handle a click on the dock's header.
    pub fn on_panel_activate(&mut self, payload: &str, shell: Option<u64>) -> (r: Vec<Effect>)
        requires
            old(self)@.wf(),
        ensures
            final(self)@.wf(),
            match old(self)@.clicked(payload@, shell) {
                Some(step) => final(self)@ == step.dock && effects_view(r@) == step.out.push(
                    step.dock.shown(),
                ),
                None => *final(self) == *old(self) && effects_view(r@) == Seq::<
                    EffectView,
                >::empty(),
            },
    {
        let mut out: Vec<Effect> = no_effects();
        if let Some(i) = read_tab(payload, "select:") {
            if i < self.order.len() {
                self.active = i;
                self.open = true;
                self.minimized = false;
                emit(&mut out, Effect::SetTerminalFocus(true));
            }
        } else if let Some(i) = read_tab(payload, "close:") {
            if i < self.order.len() {
                self.active = i;
                self.close(&mut out);
            }
        } else if same(payload, "minimize") {
            self.minimize(&mut out);
        } else if same(payload, "new") {
            self.new_terminal(shell, &mut out);
        } else {
            return out;
        }
        self.publish(&mut out);
        out
    }
}

/// Going on and back again ends at the tab where it began.
pub proof fn next_and_prev_undo_each_other(d: Dock)
    requires
        d.wf(),
    ensures
        d.next().prev() == d,
        d.prev().next() == d,
{
}

/// Where no shell starts, toggling a shut dock without terminals leaves it shut.
pub proof fn a_failed_start_leaves_the_dock_shut(d: Dock)
    requires
        d.order.len() == 0,
        !d.open,
    ensures
        d.toggled(None).dock == (Dock { minimized: false, ..d }),
{
}

/// A dock without terminals is never held open: where it is shut, no command and no click leaves it
/// open without one.
pub proof fn no_empty_dock_is_held_open(
    d: Dock,
    command: Seq<char>,
    payload: Seq<char>,
    shell: Option<u64>,
)
    requires
        d.wf(),
        d.order.len() == 0 ==> !d.open,
    ensures
        d.commanded(command, shell) matches Some(s) ==> (s.dock.order.len() == 0 ==> !s.dock.open),
        d.clicked(payload, shell) matches Some(s) ==> (s.dock.order.len() == 0 ==> !s.dock.open),
{
    if let Some(rest) = after_prefix(payload, "select:"@) {
        lemma_parsed(rest, usize::MAX as int);
    }
}

/// Shutting the dock keeps its terminals.
pub proof fn shutting_keeps_the_terminals(d: Dock, shell: Option<u64>)
    requires
        d.open,
        !d.minimized,
    ensures
        d.toggled(shell).dock.order == d.order,
        !d.toggled(shell).dock.open,
        d.toggled(shell).out == seq![EffectView::SetTerminalFocus(false)],
{
}

/// Closing the last terminal shuts the dock and gives the keys back; closing another does neither.
pub proof fn the_last_terminal_shuts_the_dock(d: Dock)
    requires
        d.wf(),
        d.order.len() > 0,
    ensures
        d.closed().dock.wf(),
        d.closed().dock.order.len() == d.order.len() - 1,
        d.order.len() == 1 ==> !d.closed().dock.open && d.closed().out.last()
            == EffectView::SetTerminalFocus(false),
        d.order.len() > 1 ==> d.closed().dock.open == d.open && d.closed().out == seq![
            EffectView::CloseTerminal(d.order[d.active]),
        ],
{
}

proof fn lemma_commands()
    ensures
        "terminal.toggle"@ != "terminal.new"@,
        "terminal.toggle"@ != "terminal.close"@,
        "terminal.toggle"@ != "terminal.minimize"@,
        "terminal.new"@ != "terminal.close"@,
        "terminal.new"@ != "terminal.minimize"@,
        "terminal.close"@ != "terminal.minimize"@,
        "terminal.next"@ != "terminal.toggle"@,
        "terminal.next"@ != "terminal.new"@,
        "terminal.next"@ != "terminal.close"@,
        "terminal.next"@ != "terminal.minimize"@,
        "terminal.next"@ != "terminal.prev"@,
        "terminal.prev"@ != "terminal.toggle"@,
        "terminal.prev"@ != "terminal.new"@,
        "terminal.prev"@ != "terminal.close"@,
        "terminal.prev"@ != "terminal.minimize"@,
{
    reveal_strlit("terminal.toggle");
    reveal_strlit("terminal.new");
    reveal_strlit("terminal.close");
    reveal_strlit("terminal.minimize");
    reveal_strlit("terminal.next");
    reveal_strlit("terminal.prev");
    assert("terminal.toggle"@[9] == 't' && "terminal.close"@[9] == 'c');
    assert("terminal.minimize"@[9] == 'm' && "terminal.prev"@[9] == 'p');
    assert("terminal.new"@.len() == 12 && "terminal.next"@.len() == 13);
    assert("terminal.new"@[9] == 'n' && "terminal.next"@[9] == 'n');
}

/// A new terminal is the last tab, active, in view and has the keys; the others stay.
pub proof fn a_new_terminal_is_the_last_tab(d: Dock, id: u64)
    ensures
        d.commanded("terminal.new"@, Some(id)) matches Some(s) && s.dock.order == d.order.push(id)
            && s.dock.order[s.dock.active] == id && s.dock.active == d.order.len() && s.dock.open
            && !s.dock.minimized && s.out == seq![EffectView::SetTerminalFocus(true)],
{
    lemma_commands();
    let s = d.commanded("terminal.new"@, Some(id)).unwrap();
    assert(s.out =~= seq![EffectView::SetTerminalFocus(true)]);
}

/// Closing ends the active terminal, and only that: the other tabs stay in their order.
pub proof fn closing_ends_the_active_terminal(d: Dock, shell: Option<u64>)
    requires
        d.wf(),
        d.order.len() > 1,
    ensures
        d.commanded("terminal.close"@, shell) matches Some(s) && s.out == seq![
            EffectView::CloseTerminal(d.order[d.active]),
        ] && s.dock.order == d.order.take(d.active) + d.order.skip(d.active + 1) && s.dock.wf()
            && s.dock.open == d.open && (d.active + 1 < d.order.len() ==> s.dock.active
            == d.active),
{
    lemma_commands();
    let s = d.commanded("terminal.close"@, shell).unwrap();
    assert(d.order.remove(d.active) =~= d.order.take(d.active) + d.order.skip(d.active + 1));
}

/// Toggling a dock in view shuts it and gives the keys back; toggling it again brings the same
/// terminals into view, with the keys.
pub proof fn toggling_shuts_and_opens(d: Dock, shell: Option<u64>)
    requires
        d.open,
        !d.minimized,
        d.order.len() > 0,
    ensures
        d.commanded("terminal.toggle"@, shell) is Some,
        ({
            let s = d.commanded("terminal.toggle"@, shell).unwrap();
            let t = s.dock.commanded("terminal.toggle"@, shell).unwrap();
            &&& s.dock == (Dock { open: false, ..d })
            &&& s.out == seq![EffectView::SetTerminalFocus(false)]
            &&& t.dock == d
            &&& t.out == seq![EffectView::SetTerminalFocus(true)]
        }),
{
    lemma_commands();
}

/// Minimizing an open dock keeps it open and gives the keys back; doing it again restores it.
pub proof fn minimizing_twice_restores(d: Dock, shell: Option<u64>)
    requires
        d.open,
        !d.minimized,
        d.order.len() > 0,
    ensures
        d.commanded("terminal.minimize"@, shell) is Some,
        ({
            let s = d.commanded("terminal.minimize"@, shell).unwrap();
            let t = s.dock.commanded("terminal.minimize"@, shell).unwrap();
            &&& s.dock == (Dock { minimized: true, ..d })
            &&& s.out == seq![EffectView::SetTerminalFocus(false)]
            &&& t.dock == d
            &&& t.out == seq![EffectView::SetTerminalFocus(true)]
        }),
{
    lemma_commands();
}

/// The next tab is one further and the previous one back, going round at the ends; neither asks for
/// anything.
pub proof fn tabs_go_round(d: Dock, shell: Option<u64>)
    requires
        d.open,
        d.wf(),
        d.order.len() > 0,
    ensures
        d.commanded("terminal.next"@, shell) matches Some(s) && s.out.len() == 0 && s.dock == (Dock {
            active: (d.active + 1) % (d.order.len() as int),
            ..d
        }),
        d.commanded("terminal.prev"@, shell) matches Some(s) && s.out.len() == 0 && (
        s.dock.active + 1) % (d.order.len() as int) == d.active && s.dock == (Dock {
            active: s.dock.active,
            ..d
        }) && s.dock.wf(),
{
    lemma_commands();
    let n = d.order.len() as int;
    if d.active + 1 < n {
        vstd::arithmetic::div_mod::lemma_small_mod((d.active + 1) as nat, n as nat);
    } else {
        vstd::arithmetic::div_mod::lemma_mod_self_0(n);
    }
    vstd::arithmetic::div_mod::lemma_small_mod(d.active as nat, n as nat);
    vstd::arithmetic::div_mod::lemma_mod_self_0(n);
}

/// A click on a tab makes it active, in view and gives it the keys; a click on its closing mark closes
/// that terminal and no other.
pub proof fn clicks_reach_their_tab(d: Dock, i: int, payload: Seq<char>, shell: Option<u64>)
    requires
        0 <= i < d.order.len(),
    ensures
        ({
            let s = d.clicked(payload, shell);
            &&& tab_of(payload, "select:"@) == Some(i) ==> s is Some && s->0.dock == (Dock {
                active: i,
                open: true,
                minimized: false,
                ..d
            }) && s->0.out == seq![EffectView::SetTerminalFocus(true)]
            &&& tab_of(payload, "select:"@) is None && tab_of(payload, "close:"@) == Some(i) ==> s
                is Some && s->0.out[0] == EffectView::CloseTerminal(d.order[i]) && s->0.dock.order
                == d.order.take(i) + d.order.skip(i + 1)
        }),
{
    assert(d.order.remove(i) =~= d.order.take(i) + d.order.skip(i + 1));
}

} // verus!
