//! What plugins contribute to the editor, and the registry of all contributions.

use vstd::prelude::*;

use crate::text::texts_of;

verus! {

/// A command that can be run: its id and its title.
#[derive(Debug, PartialEq, Eq)]
pub struct CommandInfo {
    pub id: String,
    pub title: String,
}

/// A chord and the command that it runs.
#[derive(Debug, PartialEq, Eq)]
pub struct Keybinding {
    pub chord: String,
    pub command: String,
}

/// Where a panel is docked.
#[derive(Debug, Clone, Copy, PartialEq, Eq, Structural)]
pub enum PanelLocation {
    Sidebar,
    Bottom,
}

/// A panel: its id, its title and its place.
#[derive(Debug, PartialEq, Eq)]
pub struct PanelInfo {
    pub id: String,
    pub title: String,
    pub location: PanelLocation,
}

/// The group of the context menu that an item is in.
#[derive(Debug, Clone, Copy, PartialEq, Eq, Structural)]
pub enum MenuGroup {
    Refactor,
}

/// When an item of the context menu is there.
#[derive(Debug, Clone, Copy, PartialEq, Eq, Structural)]
pub enum MenuWhen {
    LspEnabled,
}

/// An item of the context menu.
#[derive(Debug, PartialEq, Eq)]
pub struct MenuItem {
    pub command: String,
    pub title: String,
    pub group: MenuGroup,
    pub when: MenuWhen,
}

/// A viewer of files: its id, its title, and the extensions that it opens by itself.
#[derive(Debug, PartialEq, Eq)]
pub struct ViewerInfo {
    pub id: String,
    pub title: String,
    pub extensions: Vec<String>,
}

/// All that a plugin contributes.
#[derive(Debug, PartialEq, Eq)]
pub struct Contributions {
    pub commands: Vec<CommandInfo>,
    pub keybindings: Vec<Keybinding>,
    pub panels: Vec<PanelInfo>,
    pub menu: Vec<MenuItem>,
    pub viewers: Vec<ViewerInfo>,
}

/// What contributions are.
#[verifier::ext_equal]
pub struct Offer {
    /// Ids and titles.
    pub commands: Seq<(Seq<char>, Seq<char>)>,
    /// Chords and commands.
    pub keybindings: Seq<(Seq<char>, Seq<char>)>,
    /// Ids, titles and places.
    pub panels: Seq<(Seq<char>, Seq<char>, PanelLocation)>,
    /// Commands, titles, groups and conditions.
    pub menu: Seq<(Seq<char>, Seq<char>, MenuGroup, MenuWhen)>,
    /// Ids, titles and extensions.
    pub viewers: Seq<(Seq<char>, Seq<char>, Seq<Seq<char>>)>,
}

pub open spec fn commands_view(v: Seq<CommandInfo>) -> Seq<(Seq<char>, Seq<char>)> {
    v.map_values(|c: CommandInfo| (c.id@, c.title@))
}

pub open spec fn bindings_view(v: Seq<Keybinding>) -> Seq<(Seq<char>, Seq<char>)> {
    v.map_values(|k: Keybinding| (k.chord@, k.command@))
}

pub open spec fn panels_view(v: Seq<PanelInfo>) -> Seq<(Seq<char>, Seq<char>, PanelLocation)> {
    v.map_values(|p: PanelInfo| (p.id@, p.title@, p.location))
}

pub open spec fn menu_view(v: Seq<MenuItem>) -> Seq<
    (Seq<char>, Seq<char>, MenuGroup, MenuWhen),
> {
    v.map_values(|m: MenuItem| (m.command@, m.title@, m.group, m.when))
}

pub open spec fn viewers_view(v: Seq<ViewerInfo>) -> Seq<(Seq<char>, Seq<char>, Seq<Seq<char>>)> {
    v.map_values(|w: ViewerInfo| (w.id@, w.title@, texts_of(w.extensions@)))
}

impl View for Contributions {
    type V = Offer;

    open spec fn view(&self) -> Offer {
        Offer {
            commands: commands_view(self.commands@),
            keybindings: bindings_view(self.keybindings@),
            panels: panels_view(self.panels@),
            menu: menu_view(self.menu@),
            viewers: viewers_view(self.viewers@),
        }
    }
}

impl Offer {
    /// Nothing.
    pub open spec fn none() -> Offer {
        Offer {
            commands: Seq::empty(),
            keybindings: Seq::empty(),
            panels: Seq::empty(),
            menu: Seq::empty(),
            viewers: Seq::empty(),
        }
    }

    /// With a command.
    pub open spec fn command(self, id: Seq<char>, title: Seq<char>) -> Offer {
        Offer { commands: self.commands.push((id, title)), ..self }
    }

    /// With a chord.
    pub open spec fn keybinding(self, chord: Seq<char>, command: Seq<char>) -> Offer {
        Offer { keybindings: self.keybindings.push((chord, command)), ..self }
    }

    /// With a panel.
    pub open spec fn panel(self, id: Seq<char>, title: Seq<char>, location: PanelLocation) -> Offer {
        Offer { panels: self.panels.push((id, title, location)), ..self }
    }

    /// With an item of the context menu.
    pub open spec fn menu_item(
        self,
        command: Seq<char>,
        title: Seq<char>,
        group: MenuGroup,
        when: MenuWhen,
    ) -> Offer {
        Offer { menu: self.menu.push((command, title, group, when)), ..self }
    }

    /// With a viewer.
    pub open spec fn viewer(
        self,
        id: Seq<char>,
        title: Seq<char>,
        extensions: Seq<Seq<char>>,
    ) -> Offer {
        Offer { viewers: self.viewers.push((id, title, extensions)), ..self }
    }

    /// With all of another's.
    pub open spec fn and(self, other: Offer) -> Offer {
        Offer {
            commands: self.commands + other.commands,
            keybindings: self.keybindings + other.keybindings,
            panels: self.panels + other.panels,
            menu: self.menu + other.menu,
            viewers: self.viewers + other.viewers,
        }
    }

    /// Whether there is a command of the id.
    pub open spec fn has_command(self, id: Seq<char>) -> bool {
        exists|i: int| 0 <= i < self.commands.len() && (#[trigger] self.commands[i]).0 == id
    }

    /// Whether there is a panel of the id.
    pub open spec fn has_panel(self, id: Seq<char>) -> bool {
        exists|i: int| 0 <= i < self.panels.len() && (#[trigger] self.panels[i]).0 == id
    }

    /// Whether the chord runs the command.
    pub open spec fn binds(self, chord: Seq<char>, command: Seq<char>) -> bool {
        self.keybindings.contains((chord, command))
    }
}

impl Contributions {
    /// Nothing.
    pub fn builder() -> (r: Contributions)
        ensures
            r@ == Offer::none(),
    {
        let r = Contributions {
            commands: Vec::new(),
            keybindings: Vec::new(),
            panels: Vec::new(),
            menu: Vec::new(),
            viewers: Vec::new(),
        };
        assert(r@ =~= Offer::none());
        r
    }

    /// With a command.
    pub fn command(self, id: &str, title: &str) -> (r: Contributions)
        ensures
            r@ == self@.command(id@, title@),
    {
        let mut r = self;
        r.commands.push(CommandInfo { id: id.to_owned(), title: title.to_owned() });
        assert(r@ =~= self@.command(id@, title@));
        r
    }

    /// With a chord.
    pub fn keybinding(self, chord: &str, command: &str) -> (r: Contributions)
        ensures
            r@ == self@.keybinding(chord@, command@),
    {
        let mut r = self;
        r.keybindings.push(Keybinding { chord: chord.to_owned(), command: command.to_owned() });
        assert(r@ =~= self@.keybinding(chord@, command@));
        r
    }

    /// With a panel.
    pub fn panel(self, id: &str, title: &str, location: PanelLocation) -> (r: Contributions)
        ensures
            r@ == self@.panel(id@, title@, location),
    {
        let mut r = self;
        r.panels.push(PanelInfo { id: id.to_owned(), title: title.to_owned(), location });
        assert(r@ =~= self@.panel(id@, title@, location));
        r
    }

    /// With an item of the context menu.
    pub fn menu_item(self, command: &str, title: &str, group: MenuGroup, when: MenuWhen) -> (r:
        Contributions)
        ensures
            r@ == self@.menu_item(command@, title@, group, when),
    {
        let mut r = self;
        r.menu.push(
            MenuItem { command: command.to_owned(), title: title.to_owned(), group, when },
        );
        assert(r@ =~= self@.menu_item(command@, title@, group, when));
        r
    }

    /// With a viewer.
    pub fn viewer(self, id: &str, title: &str, extensions: Vec<String>) -> (r: Contributions)
        ensures
            r@ == self@.viewer(id@, title@, texts_of(extensions@)),
    {
        let mut r = self;
        r.viewers.push(ViewerInfo { id: id.to_owned(), title: title.to_owned(), extensions });
        assert(r@ =~= self@.viewer(id@, title@, texts_of(extensions@)));
        r
    }
}

/// All that the first `n` contribute, in order.
pub open spec fn gathered(offers: Seq<Offer>, n: int) -> Offer
    decreases n,
{
    if n <= 0 {
        Offer::none()
    } else {
        gathered(offers, n - 1).and(offers[n - 1])
    }
}

/// The registry of what the plugins contribute.
pub struct Registry {
    pub all: Contributions,
}

impl Registry {
    /// A registry without plugins.
    pub fn new() -> (r: Registry)
        ensures
            r.all@ == Offer::none(),
    {
        Registry { all: Contributions::builder() }
    }

    /// Take in what a plugin contributes.
    pub fn register(&mut self, c: Contributions)
        ensures
            final(self).all@ == old(self).all@.and(c@),
    {
        let ghost before = self.all@;
        let ghost more = c@;
        let mut c = c;
        self.all.commands.append(&mut c.commands);
        self.all.keybindings.append(&mut c.keybindings);
        self.all.panels.append(&mut c.panels);
        self.all.menu.append(&mut c.menu);
        self.all.viewers.append(&mut c.viewers);
        assert(self.all@ =~= before.and(more));
    }

    /// The ids of all commands, in the order of registration.
    pub fn command_ids(&self) -> (r: Vec<String>)
        ensures
            texts_of(r@) == self.all@.commands.map_values(|c: (Seq<char>, Seq<char>)| c.0),
    {
        let mut out: Vec<String> = Vec::new();
        let mut i: usize = 0;
        while i < self.all.commands.len()
            invariant
                i <= self.all.commands.len(),
                out@.len() == i,
                forall|k: int| 0 <= k < i ==> (#[trigger] out@[k])@ == self.all.commands@[k].id@,
            decreases self.all.commands.len() - i,
        {
            out.push(self.all.commands[i].id.clone());
            i += 1;
        }
        assert(texts_of(out@) =~= self.all@.commands.map_values(
            |c: (Seq<char>, Seq<char>)| c.0,
        ));
        out
    }

    /// The ids of all panels, in the order of registration.
    pub fn panel_ids(&self) -> (r: Vec<String>)
        ensures
            texts_of(r@) == self.all@.panels.map_values(
                |p: (Seq<char>, Seq<char>, PanelLocation)| p.0,
            ),
    {
        let mut out: Vec<String> = Vec::new();
        let mut i: usize = 0;
        while i < self.all.panels.len()
            invariant
                i <= self.all.panels.len(),
                out@.len() == i,
                forall|k: int| 0 <= k < i ==> (#[trigger] out@[k])@ == self.all.panels@[k].id@,
            decreases self.all.panels.len() - i,
        {
            out.push(self.all.panels[i].id.clone());
            i += 1;
        }
        assert(texts_of(out@) =~= self.all@.panels.map_values(
            |p: (Seq<char>, Seq<char>, PanelLocation)| p.0,
        ));
        out
    }

    /// All chords, in the order of registration.
    pub fn keybindings(&self) -> (r: &Vec<Keybinding>)
        ensures
            bindings_view(r@) == self.all@.keybindings,
    {
        &self.all.keybindings
    }
}

/// A command, a panel or a chord is in the registry just where one of the plugins contributes it.
pub proof fn the_registry_holds_what_plugins_contribute(offers: Seq<Offer>, n: int)
    requires
        0 <= n <= offers.len(),
    ensures
        forall|id: Seq<char>| #[trigger]
            gathered(offers, n).has_command(id) <==> exists|i: int|
                0 <= i < n && (#[trigger] offers[i]).has_command(id),
        forall|id: Seq<char>| #[trigger]
            gathered(offers, n).has_panel(id) <==> exists|i: int|
                0 <= i < n && (#[trigger] offers[i]).has_panel(id),
        forall|chord: Seq<char>, command: Seq<char>| #[trigger]
            gathered(offers, n).binds(chord, command) <==> exists|i: int|
                0 <= i < n && (#[trigger] offers[i]).binds(chord, command),
    decreases n,
{
    if n > 0 {
        the_registry_holds_what_plugins_contribute(offers, n - 1);
        let a = gathered(offers, n - 1);
        let b = offers[n - 1];
        let all = gathered(offers, n);
        lemma_and(a, b);
        assert forall|id: Seq<char>| #[trigger] all.has_command(id) implies exists|i: int|
            0 <= i < n && (#[trigger] offers[i]).has_command(id) by {
            if b.has_command(id) {
                assert(offers[n - 1].has_command(id));
            } else {
                assert(a.has_command(id));
                let i = choose|i: int| 0 <= i < n - 1 && (#[trigger] offers[i]).has_command(id);
                assert(offers[i].has_command(id));
            }
        }
        assert forall|id: Seq<char>| #[trigger] all.has_panel(id) implies exists|i: int|
            0 <= i < n && (#[trigger] offers[i]).has_panel(id) by {
            if b.has_panel(id) {
                assert(offers[n - 1].has_panel(id));
            } else {
                assert(a.has_panel(id));
                let i = choose|i: int| 0 <= i < n - 1 && (#[trigger] offers[i]).has_panel(id);
                assert(offers[i].has_panel(id));
            }
        }
        assert forall|chord: Seq<char>, command: Seq<char>| #[trigger]
            all.binds(chord, command) implies exists|i: int|
            0 <= i < n && (#[trigger] offers[i]).binds(chord, command) by {
            if b.binds(chord, command) {
                assert(offers[n - 1].binds(chord, command));
            } else {
                assert(a.binds(chord, command));
                let i = choose|i: int|
                    0 <= i < n - 1 && (#[trigger] offers[i]).binds(chord, command);
                assert(offers[i].binds(chord, command));
            }
        }
    }
}

/// Two offers together have what either has.
proof fn lemma_and(a: Offer, b: Offer)
    ensures
        forall|id: Seq<char>| #[trigger]
            a.and(b).has_command(id) <==> a.has_command(id) || b.has_command(id),
        forall|id: Seq<char>| #[trigger]
            a.and(b).has_panel(id) <==> a.has_panel(id) || b.has_panel(id),
        forall|chord: Seq<char>, command: Seq<char>| #[trigger]
            a.and(b).binds(chord, command) <==> a.binds(chord, command) || b.binds(chord, command),
{
    let c = a.and(b);
    assert forall|id: Seq<char>| a.has_command(id) || b.has_command(id) implies
        #[trigger] c.has_command(id) by {
        if a.has_command(id) {
            let i = choose|i: int| 0 <= i < a.commands.len() && (#[trigger] a.commands[i]).0 == id;
            assert(c.commands[i] == a.commands[i]);
        } else {
            let i = choose|i: int| 0 <= i < b.commands.len() && (#[trigger] b.commands[i]).0 == id;
            assert(c.commands[a.commands.len() + i] == b.commands[i]);
        }
    }
    assert forall|id: Seq<char>| #[trigger] c.has_command(id) implies a.has_command(id)
        || b.has_command(id) by {
        let i = choose|i: int| 0 <= i < c.commands.len() && (#[trigger] c.commands[i]).0 == id;
        if i < a.commands.len() {
            assert(a.commands[i].0 == id);
        } else {
            assert(b.commands[i - a.commands.len()].0 == id);
        }
    }
    assert forall|id: Seq<char>| a.has_panel(id) || b.has_panel(id) implies
        #[trigger] c.has_panel(id) by {
        if a.has_panel(id) {
            let i = choose|i: int| 0 <= i < a.panels.len() && (#[trigger] a.panels[i]).0 == id;
            assert(c.panels[i] == a.panels[i]);
        } else {
            let i = choose|i: int| 0 <= i < b.panels.len() && (#[trigger] b.panels[i]).0 == id;
            assert(c.panels[a.panels.len() + i] == b.panels[i]);
        }
    }
    assert forall|id: Seq<char>| #[trigger] c.has_panel(id) implies a.has_panel(id) || b.has_panel(
        id,
    ) by {
        let i = choose|i: int| 0 <= i < c.panels.len() && (#[trigger] c.panels[i]).0 == id;
        if i < a.panels.len() {
            assert(a.panels[i].0 == id);
        } else {
            assert(b.panels[i - a.panels.len()].0 == id);
        }
    }
    assert forall|chord: Seq<char>, command: Seq<char>|
        a.binds(chord, command) || b.binds(chord, command) implies #[trigger] c.binds(
        chord,
        command,
    ) by {
        let k = (chord, command);
        if a.binds(chord, command) {
            let i = choose|i: int| 0 <= i < a.keybindings.len() && a.keybindings[i] == k;
            assert(c.keybindings[i] == k);
        } else {
            let i = choose|i: int| 0 <= i < b.keybindings.len() && b.keybindings[i] == k;
            assert(c.keybindings[a.keybindings.len() + i] == k);
        }
    }
    assert forall|chord: Seq<char>, command: Seq<char>| #[trigger]
        c.binds(chord, command) implies a.binds(chord, command) || b.binds(chord, command) by {
        let k = (chord, command);
        let i = choose|i: int| 0 <= i < c.keybindings.len() && c.keybindings[i] == k;
        if i < a.keybindings.len() {
            assert(a.keybindings[i] == k);
        } else {
            assert(b.keybindings[i - a.keybindings.len()] == k);
        }
    }
}

} // verus!
