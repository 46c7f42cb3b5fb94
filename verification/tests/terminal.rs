use editor_builtins::effect::{Effect, TerminalView};
use editor_builtins::terminal::TerminalPlugin;

/// An editor that starts shells, and records what it shows.
struct Host {
    next: u64,
    fail_spawn: bool,
    opened: Vec<u64>,
    closed: Vec<u64>,
    view: TerminalView,
    focused: bool,
    notes: Vec<String>,
}

impl Host {
    fn new() -> Host {
        Host {
            next: 1,
            fail_spawn: false,
            opened: Vec::new(),
            closed: Vec::new(),
            view: TerminalView { open: false, minimized: false, active: 0, order: vec![] },
            focused: false,
            notes: Vec::new(),
        }
    }

    fn shell(&mut self, needed: bool) -> Option<u64> {
        if !needed || self.fail_spawn {
            return None;
        }
        let id = self.next;
        self.next += 1;
        self.opened.push(id);
        Some(id)
    }

    fn perform(&mut self, effects: Vec<Effect>) {
        for e in effects {
            match e {
                Effect::CloseTerminal(id) => self.closed.push(id),
                Effect::SetTerminalView(v) => self.view = v,
                Effect::SetTerminalFocus(f) => self.focused = f,
                Effect::Notify(m) => self.notes.push(m),
                other => panic!("{other:?}"),
            }
        }
    }
}

fn cmd(p: &mut TerminalPlugin, h: &mut Host, id: &str) {
    let shell = h.shell(p.command_needs_shell(id));
    let out = p.run_command(id, shell).expect("a terminal command");
    h.perform(out);
}

fn click(p: &mut TerminalPlugin, h: &mut Host, payload: &str) {
    let shell = h.shell(p.click_needs_shell(payload));
    let out = p.on_panel_activate(payload, shell);
    h.perform(out);
}

#[test]
fn toggle_spawns_focuses_then_closes() {
    let mut p = TerminalPlugin::new();
    let mut h = Host::new();
    cmd(&mut p, &mut h, "terminal.toggle");
    assert_eq!(h.opened.len(), 1, "first toggle spawns a shell");
    assert!(h.view.open && !h.view.minimized && h.focused);
    assert_eq!(h.view.order.len(), 1);
    // Toggling again closes the dock (keeps the shell) and returns focus to the editor.
    cmd(&mut p, &mut h, "terminal.toggle");
    assert!(!h.view.open && !h.focused);
    assert!(h.closed.is_empty(), "toggle-closed keeps the shell alive");
    assert_eq!(h.view.order.len(), 1);
}

#[test]
fn failed_spawn_leaves_the_dock_closed() {
    let mut p = TerminalPlugin::new();
    let mut h = Host::new();
    h.fail_spawn = true;
    cmd(&mut p, &mut h, "terminal.toggle");
    assert!(
        !h.view.open,
        "a failed spawn must not hold an empty dock open"
    );
    assert!(h.view.order.is_empty());
    assert_eq!(h.notes, vec!["Failed to start terminal".to_string()]);
}

#[test]
fn a_failed_new_terminal_leaves_an_empty_dock_closed() {
    let mut p = TerminalPlugin::new();
    let mut h = Host::new();
    h.fail_spawn = true;
    cmd(&mut p, &mut h, "terminal.new");
    assert!(!h.view.open && h.view.order.is_empty());
    assert_eq!(h.notes, vec!["Failed to start terminal".to_string()]);
    h.fail_spawn = false;
    cmd(&mut p, &mut h, "terminal.new");
    h.fail_spawn = true;
    cmd(&mut p, &mut h, "terminal.new");
    assert!(h.view.open && h.view.order.len() == 1);
}

#[test]
fn new_next_prev_cycle_the_active_tab() {
    let mut p = TerminalPlugin::new();
    let mut h = Host::new();
    cmd(&mut p, &mut h, "terminal.new"); // tab 0
    cmd(&mut p, &mut h, "terminal.new"); // tab 1
    cmd(&mut p, &mut h, "terminal.new"); // tab 2 (active)
    assert_eq!(h.view.order.len(), 3);
    assert_eq!(h.view.active, 2);
    cmd(&mut p, &mut h, "terminal.next"); // wraps to 0
    assert_eq!(h.view.active, 0);
    cmd(&mut p, &mut h, "terminal.prev"); // wraps to 2
    assert_eq!(h.view.active, 2);
}

#[test]
fn close_removes_the_active_tab_and_closes_the_last() {
    let mut p = TerminalPlugin::new();
    let mut h = Host::new();
    cmd(&mut p, &mut h, "terminal.new"); // id 1
    cmd(&mut p, &mut h, "terminal.new"); // id 2 (active)
    cmd(&mut p, &mut h, "terminal.close"); // removes id 2
    assert_eq!(h.closed, vec![2]);
    assert_eq!(h.view.order, vec![1]);
    assert_eq!(h.view.active, 0);
    assert!(h.view.open);
    // Closing the last returns focus to the editor and closes the dock.
    cmd(&mut p, &mut h, "terminal.close");
    assert_eq!(h.closed, vec![2, 1]);
    assert!(!h.view.open && !h.focused);
}

#[test]
fn minimize_toggles_and_drops_focus() {
    let mut p = TerminalPlugin::new();
    let mut h = Host::new();
    cmd(&mut p, &mut h, "terminal.toggle"); // open + focused
    cmd(&mut p, &mut h, "terminal.minimize");
    assert!(h.view.minimized && !h.focused);
    cmd(&mut p, &mut h, "terminal.minimize");
    assert!(!h.view.minimized && h.focused);
}

#[test]
fn mouse_header_selects_and_closes_tabs() {
    let mut p = TerminalPlugin::new();
    let mut h = Host::new();
    cmd(&mut p, &mut h, "terminal.new"); // 0
    cmd(&mut p, &mut h, "terminal.new"); // 1 (active)
    click(&mut p, &mut h, "select:0");
    assert_eq!(h.view.active, 0);
    assert!(h.focused);
    click(&mut p, &mut h, "close:1"); // close the non-active tab
    assert_eq!(h.closed, vec![2]);
    assert_eq!(h.view.order, vec![1]);
    click(&mut p, &mut h, "new");
    assert_eq!(h.view.order.len(), 2);
    click(&mut p, &mut h, "minimize");
    assert!(h.view.minimized);
}

#[test]
fn clicks_on_nothing_do_nothing() {
    let mut p = TerminalPlugin::new();
    assert!(p.on_panel_activate("elsewhere", None).is_empty());
    assert!(p.run_command("terminal.split", None).is_none());
}
