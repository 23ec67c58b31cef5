//! The parser: a registry of parameters that reads a sequence of tokens.

use crate::args::{Args, ArgsView};
use crate::error::{ParseError, ParseErrorView};
use crate::help::{alias_among, detail_line_text, usage_entry_text};
use crate::parameter::Parameter;
use crate::registry::{ParamInfoView, Registry};
use crate::scan::{lemma_settled, lemma_unset_push, settled, unset, ScanState};
use crate::table::{Assoc, Table};
use crate::text::{note_name, str_eq, to_upper};
use vstd::prelude::*;
use vstd::string::*;

verus! {

/// What the parser keeps of a parameter under its canonical name.
#[derive(Debug)]
pub struct ParamInfo {
    pub takes_value: bool,
    pub description: String,
}

impl DeepView for ParamInfo {
    type V = ParamInfoView;

    open spec fn deep_view(&self) -> ParamInfoView {
        ParamInfoView { takes_value: self.takes_value, description: self.description@ }
    }
}

impl ParamInfo {
    /// What to keep of a parameter: whether it takes a value, and its help
    /// text.
    pub fn new(takes_value: bool, description: String) -> (info: ParamInfo)
        ensures
            info.deep_view() == (ParamInfoView { takes_value, description: description@ }),
    {
        ParamInfo { takes_value, description }
    }
}

/// A registry of parameters, and the parser of the input that goes by it.
///
/// Its view is the [`Registry`], which is always well-formed.
#[derive(Debug)]
pub struct Parser {
    description: String,
    parameters: Table<ParamInfo>,
    aliases: Table<String>,
    defaults: Table<Option<String>>,
}

impl View for Parser {
    type V = Registry;

    closed spec fn view(&self) -> Registry {
        Registry {
            description: self.description@,
            parameters: self.parameters@,
            aliases: self.aliases@,
            defaults: self.defaults@,
        }
    }
}

impl Parser {
    #[verifier::type_invariant]
    spec fn inv(&self) -> bool {
        self@.wf()
    }

    /// A parser with nothing registered. `description` says what the program
    /// does and opens the help text.
    pub fn new(description: &str) -> (parser: Parser)
        ensures
            parser@ == Registry::new(description@),
            parser@.wf(),
    {
        Parser::with_description(description.to_owned())
    }

    /// A parser with nothing registered, whose description is `description`.
    fn with_description(description: String) -> (parser: Parser)
        ensures
            parser@ == Registry::new(description@),
            parser@.wf(),
    {
        proof {
            Registry::lemma_new_wf(description@);
        }
        Parser {
            description,
            parameters: Table::new(),
            aliases: Table::new(),
            defaults: Table::new(),
        }
    }

    /// Registers `param`. What was registered before under the same
    /// canonical name, or under the same alias, is replaced: a name that was
    /// value-taking and is now a flag asks for no value any more.
    pub fn add_parameter(&mut self, param: Parameter)
        ensures
            final(self)@ == old(self)@.register(param@),
            final(self)@.wf(),
    {
        proof {
            use_type_invariant(&*self);
            self@.lemma_register_wf(param@);
        }
        let (name, takes_value, description, alias, default) = param.into_parts();
        let mut taken = Parser::with_description(String::new());
        std::mem::swap(self, &mut taken);
        let Parser { description: about, mut parameters, mut aliases, mut defaults } = taken;
        if let Some(alias) = alias {
            aliases.insert(alias, name.clone());
        }
        if takes_value {
            defaults.insert(name.clone(), default);
        } else {
            defaults.remove(name.as_str());
        }
        parameters.insert(name, ParamInfo::new(takes_value, description));
        let mut built = Parser { description: about, parameters, aliases, defaults };
        std::mem::swap(self, &mut built);
    }

    /// The canonical name that `token` stands for.
    fn resolve<'a>(&'a self, token: &'a String) -> (name: &'a String)
        ensures
            name@ == self@.resolve(token@),
    {
        match self.aliases.get(token.as_str()) {
            Some(name) => name,
            None => token,
        }
    }

    /// The alias that the help text shows for `name`.
    fn shown_alias(&self, name: &str) -> (alias: Option<&String>)
        ensures
            alias.deep_view() == self@.shown_alias(name@),
    {
        let mut i = self.aliases.len();
        while i > 0
            invariant
                i <= self@.aliases.entries.len(),
                alias_among(self@.aliases, name@, i as int) == self@.shown_alias(name@),
            decreases i,
        {
            if str_eq(self.aliases.value(i - 1).as_str(), name) {
                return Some(self.aliases.key(i - 1));
            }
            i -= 1;
        }
        None
    }

    /// The help text, for the program at the path `program`: a usage line
    /// with the description and an entry for each parameter, then one line
    /// of detail for each parameter.
    pub fn help(&self, program: &str) -> (text: String)
        ensures
            text@ == self@.help_text(program@),
    {
        let n = self.parameters.len();
        let mut text = self.description.clone();
        text.append("\nUsage: ");
        text.append(program);
        let mut i: usize = 0;
        while i < n
            invariant
                i <= n,
                n == self@.parameters.entries.len(),
                text@ == self@.usage(program@, i as int),
            decreases n - i,
        {
            let name = self.parameters.key(i);
            let upper = to_upper(name.as_str());
            let label = match self.shown_alias(name.as_str()) {
                Some(short) => short,
                None => name,
            };
            let entry = usage_entry_text(label.as_str(), upper.as_str());
            text.append(entry.as_str());
            i += 1;
        }
        text.append("\n");
        let ghost head = text@;
        let mut j: usize = 0;
        while j < n
            invariant
                j <= n,
                n == self@.parameters.entries.len(),
                text@ == head + self@.details(j as int),
            decreases n - j,
        {
            let name = self.parameters.key(j);
            let info = self.parameters.value(j);
            let line = detail_line_text(
                self.shown_alias(name.as_str()),
                name.as_str(),
                info.description.as_str(),
            );
            text.append(line.as_str());
            j += 1;
        }
        text
    }

    /// Parses `tokens`, the arguments of the program without the program's
    /// own name.
    ///
    /// The tokens are read once, from left to right. A token that is the
    /// name or an alias of a value-taking parameter takes the next token as
    /// its value; of several values for one parameter the last one stays. A
    /// token that is the name or an alias of a flag sets the flag. `-h` and
    /// `--help` ask for help, unless they are registered as a parameter or
    /// an alias. Every other token is a positional argument. At the end each
    /// value-taking parameter must hold a value, from the input or from its
    /// default.
    ///
    /// The result is [`Registry::parse`] of the tokens, which
    /// [`crate::laws`] characterises: arguments, or the first reason why
    /// there are none.
    pub fn parse_args(&self, tokens: &[String]) -> (outcome: Result<Args, ParseError>)
        ensures
            self@.wf(),
            match outcome {
                Ok(args) => self@.parse(tokens.deep_view()) == Ok::<ArgsView, ParseErrorView>(
                    args@,
                ),
                Err(e) => self@.parse(tokens.deep_view()) == Err::<ArgsView, ParseErrorView>(e@),
            },
    {
        proof {
            use_type_invariant(self);
        }
        let ghost reg = self@;
        let ghost toks = tokens.deep_view();
        let mut positional: Vec<String> = Vec::new();
        let mut values = self.defaults.duplicate();
        let mut flags: Vec<String> = Vec::new();
        assert(positional.deep_view() =~= Seq::empty());
        assert(flags.deep_view().to_set() =~= Set::empty());
        let mut i: usize = 0;
        while i < tokens.len()
            invariant
                i <= tokens.len(),
                reg == self@,
                reg.wf(),
                toks == tokens.deep_view(),
                reg.scan(
                    toks,
                    i as int,
                    ScanState {
                        positional: positional.deep_view(),
                        values: values@,
                        flags: flags.deep_view().to_set(),
                    },
                ) == reg.scan(toks, 0, reg.start()),
            decreases tokens.len() - i,
        {
            let ghost st = ScanState {
                positional: positional.deep_view(),
                values: values@,
                flags: flags.deep_view().to_set(),
            };
            let token = &tokens[i];
            let name = self.resolve(token);
            match self.parameters.get(name.as_str()) {
                Some(info) => {
                    if info.takes_value {
                        if i + 1 < tokens.len() {
                            let value = tokens[i + 1].clone();
                            values.insert(name.clone(), Some(value));
                            i += 2;
                        } else {
                            return Err(ParseError::MissingValue { name: name.clone() });
                        }
                    } else {
                        note_name(&mut flags, name.clone());
                        i += 1;
                    }
                },
                None => {
                    if str_eq(token.as_str(), "-h") || str_eq(token.as_str(), "--help") {
                        return Err(ParseError::HelpRequested);
                    }
                    positional.push(token.clone());
                    assert(positional.deep_view() =~= st.positional.push(toks[i as int]));
                    i += 1;
                },
            }
        }
        match settle(&values) {
            Ok(concrete) => Ok(Args::from_parts(positional, concrete, flags)),
            Err(names) => Err(ParseError::MissingRequired { names }),
        }
    }
}

/// The values of a baseline in which every name holds one, or else the names
/// that hold none.
fn settle(values: &Table<Option<String>>) -> (outcome: Result<Table<String>, Vec<String>>)
    ensures
        match outcome {
            Ok(concrete) => unset(values@).len() == 0 && concrete@.to_map() == settled(values@),
            Err(names) => names.deep_view() == unset(values@) && names.len() > 0,
        },
{
    let n = values.len();
    let ghost all = values@;
    let mut names: Vec<String> = Vec::new();
    let mut concrete: Table<String> = Table::new();
    assert(unset(Assoc { entries: all.entries.take(0) }) =~= Seq::empty()) by {
        reveal(Seq::filter);
    }
    let mut i: usize = 0;
    while i < n
        invariant
            i <= n,
            n == all.entries.len(),
            all == values@,
            all.wf(),
            names.deep_view() == unset(Assoc { entries: all.entries.take(i as int) }),
            names.len() == 0 ==> concrete@.entries.len() == i,
            names.len() == 0 ==> forall|j: int|
                0 <= j < i ==> (#[trigger] all.entries[j]).1 is Some,
            names.len() == 0 ==> forall|j: int|
                0 <= j < i ==> #[trigger] concrete@.entries[j] == (
                    all.entries[j].0,
                    all.entries[j].1->0,
                ),
        decreases n - i,
    {
        let ghost seen = Assoc { entries: all.entries.take(i as int) };
        proof {
            assert(all.entries.take(i + 1) =~= seen.entries.push(all.entries[i as int]));
            lemma_unset_push(seen, all.entries[i as int].0, all.entries[i as int].1);
        }
        let ghost built = concrete@;
        match values.value(i) {
            Some(text) => {
                if names.len() == 0 {
                    proof {
                        let key = all.entries[i as int].0;
                        built.lemma_find(key);
                        if built.find(key) is Some {
                            let j = built.find(key)->0;
                            assert(all.keys()[j] == all.keys()[i as int]);
                        }
                    }
                    concrete.insert(values.key(i).clone(), text.clone());
                    assert(concrete@.entries == built.entries.push(
                        (all.entries[i as int].0, text@),
                    ));
                    assert forall|j: int| 0 <= j < i + 1 implies #[trigger] concrete@.entries[j]
                        == (all.entries[j].0, all.entries[j].1->0) by {
                        if j < i {
                            assert(concrete@.entries[j] == built.entries[j]);
                        }
                    }
                }
            },
            None => {
                names.push(values.key(i).clone());
            },
        }
        i += 1;
    }
    assert(all.entries.take(n as int) =~= all.entries);
    if names.len() == 0 {
        proof {
            lemma_settled(all, concrete@);
        }
        Ok(concrete)
    } else {
        Err(names)
    }
}

} // verus!
