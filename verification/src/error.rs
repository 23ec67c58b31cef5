//! Why a parse, or a typed lookup, did not give a value.

use vstd::prelude::*;
use vstd::string::*;

verus! {

/// A [`ParseError`] as plain values.
pub enum ParseErrorView {
    /// Help was asked for.
    HelpRequested,
    /// The value of this parameter is missing.
    MissingValue(Seq<char>),
    /// These parameters are left without a value.
    MissingRequired(Seq<Seq<char>>),
}

/// Why [`Parser::parse_args`](crate::parser::Parser::parse_args) returned no
/// arguments. In each case the caller is expected to print the help text and
/// stop.
#[derive(Debug, PartialEq, Eq)]
pub enum ParseError {
    /// The input asked for help with `-h` or `--help`.
    HelpRequested,
    /// The value-taking parameter `name` came as the last token, with
    /// nothing after it.
    MissingValue { name: String },
    /// The input ended and these value-taking parameters have neither a value
    /// from the input nor a default. The names are canonical, each once, in
    /// the order in which they were first registered.
    MissingRequired { names: Vec<String> },
}

impl View for ParseError {
    type V = ParseErrorView;

    open spec fn view(&self) -> ParseErrorView {
        match self {
            ParseError::HelpRequested => ParseErrorView::HelpRequested,
            ParseError::MissingValue { name } => ParseErrorView::MissingValue(name@),
            ParseError::MissingRequired { names } => ParseErrorView::MissingRequired(
                names.deep_view(),
            ),
        }
    }
}

/// `names`, one after the other, with `, ` between them.
pub open spec fn listed(names: Seq<Seq<char>>) -> Seq<char>
    decreases names.len(),
{
    if names.len() == 0 {
        Seq::empty()
    } else if names.len() == 1 {
        names[0]
    } else {
        listed(names.drop_last()) + ", "@ + names.last()
    }
}

impl ParseErrorView {
    /// The status with which the program is to end: 0 where help was asked
    /// for, 1 where the input was at fault.
    pub open spec fn exit_status(self) -> int {
        if self is HelpRequested {
            0
        } else {
            1
        }
    }

    /// The line that goes before the help text: for parameters that still
    /// lack a value, their names, all of them.
    pub open spec fn notice(self) -> Option<Seq<char>> {
        match self {
            ParseErrorView::MissingRequired(names) => Some(
                "Missing required arguments: "@ + listed(names),
            ),
            _ => None,
        }
    }
}

impl ParseError {
    /// The status with which the program is to end.
    pub fn exit_status(&self) -> (status: i32)
        ensures
            status == self@.exit_status(),
    {
        match self {
            ParseError::HelpRequested => 0,
            _ => 1,
        }
    }

    /// The line to print before the help text, if there is one.
    pub fn notice(&self) -> (line: Option<String>)
        ensures
            line.deep_view() == self@.notice(),
    {
        match self {
            ParseError::MissingRequired { names } => {
                let mut line = "Missing required arguments: ".to_owned();
                let ghost head = line@;
                let ghost all = names.deep_view();
                let mut i: usize = 0;
                while i < names.len()
                    invariant
                        i <= names.len(),
                        all == names.deep_view(),
                        line@ == head + listed(all.take(i as int)),
                    decreases names.len() - i,
                {
                    if i > 0 {
                        line.append(", ");
                    }
                    line.append(names[i].as_str());
                    proof {
                        assert(all.take(i + 1).drop_last() =~= all.take(i as int));
                    }
                    i += 1;
                }
                assert(all.take(i as int) =~= all);
                Some(line)
            },
            _ => None,
        }
    }
}

/// An [`ArgError`] as plain values.
pub enum ArgErrorView {
    /// No value-taking parameter goes by this name.
    Unrecognized { name: Seq<char> },
    /// The parameter `name` holds `value`, which cannot be read as asked.
    Conversion { name: Seq<char>, value: Seq<char> },
}

/// Why [`Args::get`](crate::args::Args::get) returned no value.
#[derive(Debug, PartialEq, Eq)]
pub enum ArgError {
    /// No value-taking parameter was registered under `name`. This is a
    /// mistake of the program, not of its input.
    Unrecognized { name: String },
    /// The parameter `name` holds `value`, which cannot be read as the type
    /// that was asked for.
    Conversion { name: String, value: String },
}

impl View for ArgError {
    type V = ArgErrorView;

    open spec fn view(&self) -> ArgErrorView {
        match self {
            ArgError::Unrecognized { name } => ArgErrorView::Unrecognized { name: name@ },
            ArgError::Conversion { name, value } => ArgErrorView::Conversion {
                name: name@,
                value: value@,
            },
        }
    }
}

impl ArgErrorView {
    /// What went wrong, in words.
    pub open spec fn message(self) -> Seq<char> {
        match self {
            ArgErrorView::Unrecognized { name } => "Parameter "@ + name + " unrecognized"@,
            ArgErrorView::Conversion { name, value } => "Could not convert value ("@ + value
                + ") for parameter "@ + name,
        }
    }
}

impl ArgError {
    /// What went wrong, in words.
    pub fn message(&self) -> (text: String)
        ensures
            text@ == self@.message(),
    {
        match self {
            ArgError::Unrecognized { name } => {
                let mut text = "Parameter ".to_owned();
                text.append(name.as_str());
                text.append(" unrecognized");
                text
            },
            ArgError::Conversion { name, value } => {
                let mut text = "Could not convert value (".to_owned();
                text.append(value.as_str());
                text.append(") for parameter ");
                text.append(name.as_str());
                text
            },
        }
    }
}

} // verus!
