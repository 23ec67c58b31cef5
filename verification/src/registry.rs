//! The registry of parameters as a mathematical object: what is registered,
//! how registering changes it, and how it reads a single token.

use crate::parameter::ParameterView;
use crate::table::Assoc;
use vstd::prelude::*;

verus! {

/// What the registry keeps of a parameter under its canonical name.
pub struct ParamInfoView {
    pub takes_value: bool,
    pub description: Seq<char>,
}

/// The registry: three maps, each in the order in which its keys were first
/// registered.
pub struct Registry {
    /// What the program does, for the help text.
    pub description: Seq<char>,
    /// Canonical name to what is known of the parameter.
    pub parameters: Assoc<ParamInfoView>,
    /// Alias to canonical name.
    pub aliases: Assoc<Seq<char>>,
    /// The baseline of values: canonical name of each value-taking parameter
    /// to its default, or to `None` where it has no default.
    pub defaults: Assoc<Option<Seq<char>>>,
}

/// What a token is to the registry.
pub enum TokenKind {
    /// A value-taking parameter, by its canonical name.
    Valued(Seq<char>),
    /// A flag, by its canonical name.
    Flag(Seq<char>),
    /// A request for help.
    Help,
    /// Anything else.
    Positional,
}

/// `-h` and `--help` ask for help, unless the registry knows them otherwise.
pub open spec fn is_help_token(token: Seq<char>) -> bool {
    token == "-h"@ || token == "--help"@
}

impl Registry {
    /// The registry with nothing registered.
    pub open spec fn new(description: Seq<char>) -> Registry {
        Registry {
            description,
            parameters: Assoc::empty(),
            aliases: Assoc::empty(),
            defaults: Assoc::empty(),
        }
    }

    /// No map holds a key twice, every alias stands for a registered
    /// parameter, and the baseline has an entry for every value-taking
    /// parameter and for no other name.
    pub open spec fn wf(self) -> bool {
        &&& self.parameters.wf()
        &&& self.aliases.wf()
        &&& self.defaults.wf()
        &&& forall|alias: Seq<char>| #[trigger]
            self.aliases.contains_key(alias) ==> self.parameters.contains_key(
                self.aliases.get(alias)->0,
            )
        &&& forall|name: Seq<char>|
            (#[trigger] self.parameters.get(name)) matches Some(info) ==> info.takes_value
                ==> self.defaults.contains_key(name)
        &&& forall|name: Seq<char>| #[trigger]
            self.defaults.contains_key(name) ==> self.takes_value(name)
    }

    /// Whether `name` is registered as a value-taking parameter.
    pub open spec fn takes_value(self, name: Seq<char>) -> bool {
        self.parameters.get(name) matches Some(info) && info.takes_value
    }

    /// Whether `name` is registered as a flag.
    pub open spec fn is_flag(self, name: Seq<char>) -> bool {
        self.parameters.get(name) matches Some(info) && !info.takes_value
    }

    /// The registry after `p` was registered. What was registered before
    /// under the same canonical name, or under the same alias, is replaced:
    /// the baseline gets the entry of a value-taking parameter, and loses
    /// the entry of a name that is now a flag.
    pub open spec fn register(self, p: ParameterView) -> Registry {
        Registry {
            description: self.description,
            parameters: self.parameters.insert(
                p.name,
                ParamInfoView { takes_value: p.takes_value, description: p.description },
            ),
            aliases: match p.alias {
                Some(alias) => self.aliases.insert(alias, p.name),
                None => self.aliases,
            },
            defaults: if p.takes_value {
                self.defaults.insert(p.name, p.default)
            } else {
                self.defaults.remove(p.name)
            },
        }
    }

    /// The canonical name that `token` stands for: what it is an alias of,
    /// or else itself.
    pub open spec fn resolve(self, token: Seq<char>) -> Seq<char> {
        match self.aliases.get(token) {
            Some(name) => name,
            None => token,
        }
    }

    /// What `token` is. A registered parameter comes first: `-h` and
    /// `--help` ask for help only where they do not resolve to one.
    pub open spec fn classify(self, token: Seq<char>) -> TokenKind {
        let name = self.resolve(token);
        match self.parameters.get(name) {
            Some(info) => if info.takes_value {
                TokenKind::Valued(name)
            } else {
                TokenKind::Flag(name)
            },
            None => if is_help_token(token) {
                TokenKind::Help
            } else {
                TokenKind::Positional
            },
        }
    }

    /// The registry with nothing registered is well-formed.
    pub proof fn lemma_new_wf(description: Seq<char>)
        ensures
            Registry::new(description).wf(),
    {
        Assoc::<ParamInfoView>::lemma_empty();
        Assoc::<Seq<char>>::lemma_empty();
        Assoc::<Option<Seq<char>>>::lemma_empty();
    }

    /// Registering keeps the registry well-formed.
    pub proof fn lemma_register_wf(self, p: ParameterView)
        requires
            self.wf(),
        ensures
            self.register(p).wf(),
    {
        let after = self.register(p);
        let info = ParamInfoView { takes_value: p.takes_value, description: p.description };
        self.parameters.lemma_insert_wf(p.name, info);
        if p.alias is Some {
            self.aliases.lemma_insert_wf(p.alias->0, p.name);
        }
        if p.takes_value {
            self.defaults.lemma_insert_wf(p.name, p.default);
        } else {
            self.defaults.lemma_remove_wf(p.name);
        }
        assert forall|alias: Seq<char>| #[trigger] after.aliases.contains_key(alias) implies after
            .parameters.contains_key(after.aliases.get(alias)->0) by {
            let target = after.aliases.get(alias)->0;
            self.parameters.lemma_insert_get(p.name, info, target);
            if p.alias is Some {
                self.aliases.lemma_insert_get(p.alias->0, p.name, alias);
            }
            if target != p.name {
                assert(self.aliases.contains_key(alias));
            }
        }
        assert forall|name: Seq<char>|
            (#[trigger] after.parameters.get(name)) matches Some(found)
                && found.takes_value implies after.defaults.contains_key(name) by {
            self.parameters.lemma_insert_get(p.name, info, name);
            if p.takes_value {
                self.defaults.lemma_insert_get(p.name, p.default, name);
            } else {
                self.defaults.lemma_remove_get(p.name, name);
            }
        }
        assert forall|name: Seq<char>| #[trigger]
            after.defaults.contains_key(name) implies after.takes_value(name) by {
            self.parameters.lemma_insert_get(p.name, info, name);
            if p.takes_value {
                self.defaults.lemma_insert_get(p.name, p.default, name);
            } else {
                self.defaults.lemma_remove_get(p.name, name);
            }
            if name != p.name {
                assert(self.defaults.contains_key(name));
            }
        }
    }
}

} // verus!
