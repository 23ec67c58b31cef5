//! Parameter descriptors: what a caller hands to the parser to register one
//! parameter.

use std::fmt::Display;
use vstd::prelude::*;
use vstd::string::*;

verus! {

/// What a [`Parameter`] says, as plain values.
pub struct ParameterView {
    /// The canonical name, under which the parameter is registered.
    pub name: Seq<char>,
    /// Whether the parameter takes the token after it as its value.
    pub takes_value: bool,
    /// The help text.
    pub description: Seq<char>,
    /// A second name that stands for the canonical one.
    pub alias: Option<Seq<char>>,
    /// The value used when the input gives none.
    pub default: Option<Seq<char>>,
}

/// The description of one parameter, built by chained calls and consumed by
/// [`Parser::add_parameter`](crate::parser::Parser::add_parameter).
///
/// Names need not start with `-` or `--`: that is left to the caller.
#[derive(Debug)]
pub struct Parameter {
    pub(crate) name: String,
    pub(crate) takes_value: bool,
    pub(crate) description: String,
    pub(crate) alias: Option<String>,
    pub(crate) default: Option<String>,
}

impl View for Parameter {
    type V = ParameterView;

    closed spec fn view(&self) -> ParameterView {
        ParameterView {
            name: self.name@,
            takes_value: self.takes_value,
            description: self.description@,
            alias: self.alias.deep_view(),
            default: self.default.deep_view(),
        }
    }
}

impl Parameter {
    /// A parameter that takes a value.
    pub fn param(name: &str, description: &str) -> (p: Parameter)
        ensures
            p@ == (ParameterView {
                name: name@,
                takes_value: true,
                description: description@,
                alias: None,
                default: None,
            }),
    {
        Parameter {
            name: name.to_owned(),
            takes_value: true,
            description: description.to_owned(),
            alias: None,
            default: None,
        }
    }

    /// A boolean flag: present or absent, without a value.
    pub fn flag(name: &str, description: &str) -> (p: Parameter)
        ensures
            p@ == (ParameterView {
                name: name@,
                takes_value: false,
                description: description@,
                alias: None,
                default: None,
            }),
    {
        Parameter {
            name: name.to_owned(),
            takes_value: false,
            description: description.to_owned(),
            alias: None,
            default: None,
        }
    }

    /// Gives the parameter a second name. A later call replaces an earlier one.
    pub fn alias(self, alias: &str) -> (p: Parameter)
        ensures
            p@ == (ParameterView { alias: Some(alias@), ..self@ }),
    {
        let mut p = self;
        p.alias = Some(alias.to_owned());
        p
    }

    /// Gives the parameter the default `text`. A later call replaces an
    /// earlier one. The parser reads the default of value-taking parameters
    /// only.
    pub fn default_text(self, text: String) -> (p: Parameter)
        ensures
            p@ == (ParameterView { default: Some(text@), ..self@ }),
    {
        let mut p = self;
        p.default = Some(text);
        p
    }

    /// Gives the parameter a default: the text that `default` is displayed as.
    pub fn default<T: Display>(self, default: &T) -> (p: Parameter)
        ensures
            exists|text: String| #[trigger]
                to_string_from_display_ensures::<T>(default, text) && p@ == (ParameterView {
                    default: Some(text@),
                    ..self@
                }),
    {
        let text = default.to_string();
        let ghost shown = text;
        let p = self.default_text(text);
        assert(to_string_from_display_ensures::<T>(default, shown) && p@ == (ParameterView {
            default: Some(shown@),
            ..self@
        }));
        p
    }

    /// The fields of the descriptor, for the registry to file away.
    pub(crate) fn into_parts(self) -> (parts: (
        String,
        bool,
        String,
        Option<String>,
        Option<String>,
    ))
        ensures
            self@ == (ParameterView {
                name: parts.0@,
                takes_value: parts.1,
                description: parts.2@,
                alias: parts.3.deep_view(),
                default: parts.4.deep_view(),
            }),
    {
        (self.name, self.takes_value, self.description, self.alias, self.default)
    }
}

} // verus!
