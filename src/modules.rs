//! The catalogue of optional modules and the commands they contribute.

use vstd::prelude::*;

verus! {

/// A command that the bot registers with the chat platform.
#[derive(Clone, Copy, Debug, PartialEq, Eq, Structural)]
pub enum Command {
    /// The `module` parent command with its `enable`, `list` and `disable`
    /// subcommands.
    Module,
    ServerInfo,
    Uptime,
    Nom,
    Test,
}

/// The closed catalogue of optional modules a guild can enable.
#[derive(Clone, Copy, Debug, PartialEq, Eq, Structural)]
pub enum Module {
    Nom,
}

/// The name a module is stored and shown under.
pub open spec fn module_name(m: Module) -> Seq<char> {
    match m {
        Module::Nom => seq!['n', 'o', 'm'],
    }
}

/// The module stored under `name`, if the catalogue knows one.
pub open spec fn module_named(name: Seq<char>) -> Option<Module> {
    if name == module_name(Module::Nom) {
        Some(Module::Nom)
    } else {
        None
    }
}

/// The commands a module contributes, in registration order.
pub open spec fn module_commands(m: Module) -> Seq<Command> {
    match m {
        Module::Nom => seq![Command::Nom],
    }
}

/// The commands every guild sees, whatever modules it has enabled.
pub open spec fn global_commands() -> Seq<Command> {
    seq![Command::Module, Command::ServerInfo, Command::Uptime]
}

impl Module {
    pub fn name(&self) -> (r: &'static str)
        ensures
            r@ == module_name(*self),
    {
        match self {
            Module::Nom => {
                let r = "nom";
                proof {
                    reveal_strlit("nom");
                }
                r
            },
        }
    }

    /// The module's name as an owned string, as it is shown to users.
    pub fn to_string(&self) -> (r: String)
        ensures
            r@ == module_name(*self),
    {
        String::from_str(self.name())
    }

    /// Looks a stored module name up in the catalogue.
    pub fn from_name(name: &str) -> (r: Option<Module>)
        ensures
            r == module_named(name@),
    {
        let owned = name.to_owned();
        let nom = Module::Nom.to_string();
        if owned == nom {
            Some(Module::Nom)
        } else {
            None
        }
    }

    /// Whether the catalogue knows a module stored under `name`.
    pub fn is_known(name: &str) -> (r: bool)
        ensures
            r == module_named(name@).is_some(),
    {
        Module::from_name(name).is_some()
    }

    /// Appends the commands this module contributes, in order.
    pub fn append_commands(&self, commands: &mut Vec<Command>)
        ensures
            final(commands)@ == old(commands)@ + module_commands(*self),
    {
        match self {
            Module::Nom => Nom::append_commands(commands),
        }
    }

    /// The commands this module contributes, in order.
    pub fn commands(&self) -> (r: Vec<Command>)
        ensures
            r@ == module_commands(*self),
    {
        let mut r: Vec<Command> = Vec::new();
        self.append_commands(&mut r);
        assert(r@ =~= module_commands(*self));
        r
    }
}

/// A module's implementation: its name and the commands it registers.
pub trait ModuleImpl {
    /// The name the module is stored and shown under.
    spec fn named() -> Seq<char>;

    /// The commands the module registers, in order.
    spec fn contributed() -> Seq<Command>;

    fn name() -> (r: &'static str)
        ensures
            r@ == Self::named(),
    ;

    fn append_commands(commands: &mut Vec<Command>)
        ensures
            final(commands)@ == old(commands)@ + Self::contributed(),
    ;
}

/// Overlays a posted picture on an animated fox eating it.
pub struct Nom;

impl ModuleImpl for Nom {
    open spec fn named() -> Seq<char> {
        module_name(Module::Nom)
    }

    open spec fn contributed() -> Seq<Command> {
        module_commands(Module::Nom)
    }

    fn name() -> (r: &'static str) {
        Module::Nom.name()
    }

    fn append_commands(commands: &mut Vec<Command>) {
        commands.push(Command::Nom);
        assert(commands@ =~= old(commands)@ + Self::contributed());
    }
}

/// A module with a single reply command, useful to check registration.
pub struct Test;

impl ModuleImpl for Test {
    open spec fn named() -> Seq<char> {
        seq!['t', 'e', 's', 't']
    }

    open spec fn contributed() -> Seq<Command> {
        seq![Command::Test]
    }

    fn name() -> (r: &'static str) {
        let r = "test";
        proof {
            reveal_strlit("test");
        }
        r
    }

    fn append_commands(commands: &mut Vec<Command>) {
        commands.push(Command::Test);
        assert(commands@ =~= old(commands)@ + Self::contributed());
    }
}

/// The commands registered globally, for every guild.
pub fn get_global_commands() -> (r: Vec<Command>)
    ensures
        r@ == global_commands(),
{
    let r = vec![Command::Module, Command::ServerInfo, Command::Uptime];
    assert(r@ =~= global_commands());
    r
}

} // verus!
