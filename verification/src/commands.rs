//! The commands of the program.
use vstd::prelude::*;
use vstd::string::*;

verus! {

/// What a command does.
#[derive(Clone, Copy, Debug, PartialEq, Eq, Structural)]
pub enum CommandKind {
    NewRequest,
    Send,
    Cancel,
    Save,
    FocusUrl,
    CommandPalette,
    CycleEnvironment,
    NextRequestTab,
    PreviousRequestTab,
    ReopenClosedRequestTab,
}

/// A command: its identifier, how it is called, the keys that give it, and what it does.
#[derive(Clone, Copy, Debug, PartialEq, Eq)]
pub struct CommandDescriptor {
    pub id: &'static str,
    pub label: &'static str,
    pub binding: &'static str,
    pub kind: CommandKind,
}

/// A command, by its contents.
pub struct CommandView {
    pub id: Seq<char>,
    pub label: Seq<char>,
    pub binding: Seq<char>,
    pub kind: CommandKind,
}

impl View for CommandDescriptor {
    type V = CommandView;

    open spec fn view(&self) -> CommandView {
        CommandView {
            id: self.id@,
            label: self.label@,
            binding: self.binding@,
            kind: self.kind,
        }
    }
}

impl CommandDescriptor {
    /// A command.
    pub fn new(
        id: &'static str,
        label: &'static str,
        binding: &'static str,
        kind: CommandKind,
    ) -> (r: CommandDescriptor)
        ensures
            r@ == (CommandView { id: id@, label: label@, binding: binding@, kind }),
    {
        CommandDescriptor { id, label, binding, kind }
    }
}

/// The contents of a list of commands.
pub open spec fn command_views(list: Seq<CommandDescriptor>) -> Seq<CommandView> {
    list.map_values(|c: CommandDescriptor| c@)
}

/// The commands of the program.
pub open spec fn all_commands() -> Seq<CommandView> {
    seq![
        CommandView {
            id: "request.new"@,
            label: "Create request draft"@,
            binding: "Ctrl/Cmd+N"@,
            kind: CommandKind::NewRequest,
        },
        CommandView {
            id: "request.send"@,
            label: "Send current request"@,
            binding: "Ctrl/Cmd+Enter"@,
            kind: CommandKind::Send,
        },
        CommandView {
            id: "request.cancel"@,
            label: "Cancel current request"@,
            binding: "Escape"@,
            kind: CommandKind::Cancel,
        },
        CommandView {
            id: "request.save"@,
            label: "Save current draft"@,
            binding: "Ctrl/Cmd+S"@,
            kind: CommandKind::Save,
        },
        CommandView {
            id: "request.focus-url"@,
            label: "Focus URL"@,
            binding: "Ctrl/Cmd+L"@,
            kind: CommandKind::FocusUrl,
        },
        CommandView {
            id: "application.command-palette"@,
            label: "Open command palette"@,
            binding: "Ctrl/Cmd+Shift+P"@,
            kind: CommandKind::CommandPalette,
        },
        CommandView {
            id: "environment.cycle"@,
            label: "Switch environment"@,
            binding: "Ctrl/Cmd+K Ctrl/Cmd+E"@,
            kind: CommandKind::CycleEnvironment,
        },
        CommandView {
            id: "request-tab.next"@,
            label: "Activate next request tab"@,
            binding: "Ctrl/Cmd+PageDown"@,
            kind: CommandKind::NextRequestTab,
        },
        CommandView {
            id: "request-tab.previous"@,
            label: "Activate previous request tab"@,
            binding: "Ctrl/Cmd+PageUp"@,
            kind: CommandKind::PreviousRequestTab,
        },
        CommandView {
            id: "request-tab.reopen-closed"@,
            label: "Reopen recently closed request tab"@,
            binding: "Ctrl/Cmd+Shift+T"@,
            kind: CommandKind::ReopenClosedRequestTab,
        },
    ]
}

/// Lists the commands of the program.
pub fn commands() -> (r: Vec<CommandDescriptor>)
    ensures
        command_views(r@) == all_commands(),
{
    let mut r: Vec<CommandDescriptor> = Vec::new();
    r.push(
        CommandDescriptor::new(
            "request.new",
            "Create request draft",
            "Ctrl/Cmd+N",
            CommandKind::NewRequest,
        ),
    );
    r.push(
        CommandDescriptor::new(
            "request.send",
            "Send current request",
            "Ctrl/Cmd+Enter",
            CommandKind::Send,
        ),
    );
    r.push(
        CommandDescriptor::new(
            "request.cancel",
            "Cancel current request",
            "Escape",
            CommandKind::Cancel,
        ),
    );
    r.push(
        CommandDescriptor::new(
            "request.save",
            "Save current draft",
            "Ctrl/Cmd+S",
            CommandKind::Save,
        ),
    );
    r.push(
        CommandDescriptor::new(
            "request.focus-url",
            "Focus URL",
            "Ctrl/Cmd+L",
            CommandKind::FocusUrl,
        ),
    );
    r.push(
        CommandDescriptor::new(
            "application.command-palette",
            "Open command palette",
            "Ctrl/Cmd+Shift+P",
            CommandKind::CommandPalette,
        ),
    );
    r.push(
        CommandDescriptor::new(
            "environment.cycle",
            "Switch environment",
            "Ctrl/Cmd+K Ctrl/Cmd+E",
            CommandKind::CycleEnvironment,
        ),
    );
    r.push(
        CommandDescriptor::new(
            "request-tab.next",
            "Activate next request tab",
            "Ctrl/Cmd+PageDown",
            CommandKind::NextRequestTab,
        ),
    );
    r.push(
        CommandDescriptor::new(
            "request-tab.previous",
            "Activate previous request tab",
            "Ctrl/Cmd+PageUp",
            CommandKind::PreviousRequestTab,
        ),
    );
    r.push(
        CommandDescriptor::new(
            "request-tab.reopen-closed",
            "Reopen recently closed request tab",
            "Ctrl/Cmd+Shift+T",
            CommandKind::ReopenClosedRequestTab,
        ),
    );
    assert(command_views(r@) =~= all_commands());
    r
}

/// No two commands have the same identifier, and no two do the same.
pub proof fn law_commands_are_told_apart(i: int, j: int)
    requires
        0 <= i < j < all_commands().len(),
    ensures
        all_commands()[i].id != all_commands()[j].id,
        all_commands()[i].kind != all_commands()[j].kind,
{
    reveal_strlit("request.new");
    reveal_strlit("request.send");
    reveal_strlit("request.cancel");
    reveal_strlit("request.save");
    reveal_strlit("request.focus-url");
    reveal_strlit("application.command-palette");
    reveal_strlit("environment.cycle");
    reveal_strlit("request-tab.next");
    reveal_strlit("request-tab.previous");
    reveal_strlit("request-tab.reopen-closed");
    assert("request.send"@[9] == 'e' && "request.save"@[9] == 'a');
    assert("request.focus-url"@[0] == 'r' && "environment.cycle"@[0] == 'e');
    assert("request.new"@.len() == 11);
    assert("request.send"@.len() == 12);
    assert("request.cancel"@.len() == 14);
    assert("request.save"@.len() == 12);
    assert("request.focus-url"@.len() == 17);
    assert("application.command-palette"@.len() == 27);
    assert("environment.cycle"@.len() == 17);
    assert("request-tab.next"@.len() == 16);
    assert("request-tab.previous"@.len() == 20);
    assert("request-tab.reopen-closed"@.len() == 25);
}

} // verus!
