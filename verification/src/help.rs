//! The help text: a usage line that names every parameter, then one line of
//! detail for each.
//!
//! Parameters come in the order in which their names were first registered.

use crate::registry::Registry;
use crate::table::Assoc;
use crate::text::{strip_dashes, uppercased, without_dashes};
use vstd::prelude::*;
use vstd::string::*;

verus! {

/// The alias among the first `n` that stands for `name`; of several, the one
/// that comes last.
pub open spec fn alias_among(
    aliases: Assoc<Seq<char>>,
    name: Seq<char>,
    n: int,
) -> Option<Seq<char>>
    decreases n,
{
    if n <= 0 {
        None
    } else if aliases.entries[n - 1].1 == name {
        Some(aliases.entries[n - 1].0)
    } else {
        alias_among(aliases, name, n - 1)
    }
}

/// What the usage line says of one parameter: the name it goes by, and in
/// capitals a word for its value, which is the canonical name in upper case
/// `upper` without its leading dashes.
pub open spec fn usage_entry(label: Seq<char>, upper: Seq<char>) -> Seq<char> {
    " ["@ + label + " "@ + strip_dashes(upper) + "]"@
}

/// The line of detail for one parameter: its alias, if it has one, its
/// canonical name and its description.
pub open spec fn detail_line(
    alias: Option<Seq<char>>,
    name: Seq<char>,
    description: Seq<char>,
) -> Seq<char> {
    let lead = match alias {
        Some(short) => "\t"@ + short + ","@,
        None => "\t"@,
    };
    lead + "\t"@ + name + "\t\t"@ + description + "\n"@
}

impl Registry {
    /// The alias that the help text shows for `name`.
    pub open spec fn shown_alias(self, name: Seq<char>) -> Option<Seq<char>> {
        alias_among(self.aliases, name, self.aliases.entries.len() as int)
    }

    /// The name that the usage line shows for `name`: its alias, if it has
    /// one.
    pub open spec fn label(self, name: Seq<char>) -> Seq<char> {
        match self.shown_alias(name) {
            Some(short) => short,
            None => name,
        }
    }

    /// The usage line up to the first `n` parameters: the description, the
    /// path of the program, and an entry for each parameter.
    pub open spec fn usage(self, program: Seq<char>, n: int) -> Seq<char>
        decreases n,
    {
        if n <= 0 {
            self.description + "\nUsage: "@ + program
        } else {
            let name = self.parameters.entries[n - 1].0;
            self.usage(program, n - 1) + usage_entry(self.label(name), uppercased(name))
        }
    }

    /// The lines of detail of the first `n` parameters.
    pub open spec fn details(self, n: int) -> Seq<char>
        decreases n,
    {
        if n <= 0 {
            Seq::empty()
        } else {
            let (name, info) = self.parameters.entries[n - 1];
            self.details(n - 1) + detail_line(self.shown_alias(name), name, info.description)
        }
    }

    /// The help text for the program at the path `program`.
    pub open spec fn help_text(self, program: Seq<char>) -> Seq<char> {
        let n = self.parameters.entries.len() as int;
        self.usage(program, n) + "\n"@ + self.details(n)
    }
}

/// The entry of the usage line for the parameter that goes by `label` there
/// and whose canonical name is `upper` in upper case.
pub fn usage_entry_text(label: &str, upper: &str) -> (entry: String)
    ensures
        entry@ == usage_entry(label@, upper@),
{
    let mut entry = " [".to_owned();
    entry.append(label);
    entry.append(" ");
    entry.append(without_dashes(upper));
    entry.append("]");
    entry
}

/// The line of detail for the parameter `name`.
pub fn detail_line_text(alias: Option<&String>, name: &str, description: &str) -> (line: String)
    ensures
        line@ == detail_line(alias.deep_view(), name@, description@),
{
    let mut line = "\t".to_owned();
    if let Some(short) = alias {
        line.append(short.as_str());
        line.append(",");
    }
    line.append("\t");
    line.append(name);
    line.append("\t\t");
    line.append(description);
    line.append("\n");
    line
}

} // verus!
