//! The result of a parse: positional arguments, values and flags.

use crate::error::{ArgError, ArgErrorView};
use crate::table::{Assoc, Table};
use crate::text::{clone_strings, parse_text, str_eq};
use std::str::FromStr;
use vstd::prelude::*;
use vstd::string::*;

verus! {

/// [`Args`] as plain values.
pub struct ArgsView {
    /// The positional arguments, in the order of the input.
    pub positional: Seq<Seq<char>>,
    /// Canonical name of each value-taking parameter to its value.
    pub values: Map<Seq<char>, Seq<char>>,
    /// The canonical names of the flags that the input held.
    pub flags: Set<Seq<char>>,
}

/// The arguments that a parse found.
#[derive(Debug)]
pub struct Args {
    /// The tokens that are neither a parameter, nor a parameter's value, nor
    /// a request for help, in the order of the input. Verified callers read
    /// them through [`Args::positional_arguments`], which says how they
    /// stand in the view.
    pub positional: Vec<String>,
    values: Table<String>,
    flags: Vec<String>,
}

impl View for Args {
    type V = ArgsView;

    closed spec fn view(&self) -> ArgsView {
        ArgsView {
            positional: self.positional.deep_view(),
            values: self.values@.to_map(),
            flags: self.flags.deep_view().to_set(),
        }
    }
}

impl Args {
    /// Arguments that hold nothing.
    pub fn new() -> (args: Args)
        ensures
            args@ == (ArgsView {
                positional: Seq::empty(),
                values: Map::empty(),
                flags: Set::empty(),
            }),
    {
        let args = Args { positional: Vec::new(), values: Table::new(), flags: Vec::new() };
        proof {
            Assoc::<Seq<char>>::lemma_empty();
        }
        assert(args@.positional =~= Seq::empty());
        assert(args@.flags =~= Set::empty());
        args
    }

    /// Arguments made of their three parts.
    pub(crate) fn from_parts(
        positional: Vec<String>,
        values: Table<String>,
        flags: Vec<String>,
    ) -> (args: Args)
        ensures
            args@ == (ArgsView {
                positional: positional.deep_view(),
                values: values@.to_map(),
                flags: flags.deep_view().to_set(),
            }),
    {
        Args { positional, values, flags }
    }

    /// The positional arguments, in the order of the input.
    pub fn positional_arguments(&self) -> (positional: &Vec<String>)
        ensures
            positional.deep_view() == self@.positional,
    {
        &self.positional
    }

    /// Whether the input held the flag whose canonical name is `flag`. A
    /// name that was never registered gives `false`.
    pub fn flag(&self, flag: &str) -> (present: bool)
        ensures
            present == self@.flags.contains(flag@),
    {
        let mut i: usize = 0;
        while i < self.flags.len()
            invariant
                i <= self.flags.len(),
                forall|j: int| 0 <= j < i ==> self.flags.deep_view()[j] != flag@,
            decreases self.flags.len() - i,
        {
            if str_eq(self.flags[i].as_str(), flag) {
                assert(self.flags.deep_view()[i as int] == flag@);
                return true;
            }
            i += 1;
        }
        false
    }

    /// The value of the parameter `param` as the input or the default gave
    /// it, where `param` is the canonical name of a value-taking parameter.
    pub fn raw(&self, param: &str) -> (value: Option<&String>)
        ensures
            value.deep_view() == if self@.values.contains_key(param@) {
                Some(self@.values[param@])
            } else {
                None
            },
    {
        self.values.get(param)
    }

    /// The outcome of a typed lookup of `param`, whose value `value` was
    /// read as a `T` with the outcome `parsed`.
    pub fn converted<T>(
        param: &str,
        value: &str,
        parsed: Option<T>,
    ) -> (outcome: Result<T, ArgError>)
        ensures
            match parsed {
                Some(v) => outcome == Ok::<T, ArgError>(v),
                None => outcome matches Err(e) && e@ == (ArgErrorView::Conversion {
                    name: param@,
                    value: value@,
                }),
            },
    {
        match parsed {
            Some(v) => Ok(v),
            None => Err(ArgError::Conversion { name: param.to_owned(), value: value.to_owned() }),
        }
    }

    /// The value of the parameter `param`, read as a `T`.
    ///
    /// `param` is the canonical name of a value-taking parameter. For any
    /// other name the lookup fails with [`ArgError::Unrecognized`]. The
    /// value is [`Args::raw`] of `param`. Whether it can be read as a `T`,
    /// and as which, is for `T` to say; where it cannot, the lookup fails
    /// with [`ArgError::Conversion`], which holds the name and the value.
    pub fn get<T: FromStr>(&self, param: &str) -> (outcome: Result<T, ArgError>)
        ensures
            match outcome {
                Ok(_) => self@.values.contains_key(param@),
                Err(e) => e@ == if self@.values.contains_key(param@) {
                    (ArgErrorView::Conversion { name: param@, value: self@.values[param@] })
                } else {
                    (ArgErrorView::Unrecognized { name: param@ })
                },
            },
    {
        match self.raw(param) {
            Some(value) => {
                let parsed = parse_text::<T>(value.as_str());
                Args::converted(param, value.as_str(), parsed)
            },
            None => Err(ArgError::Unrecognized { name: param.to_owned() }),
        }
    }
}

impl Clone for Args {
    fn clone(&self) -> (copy: Args)
        ensures
            copy@ == self@,
    {
        let positional = clone_strings(&self.positional);
        let flags = clone_strings(&self.flags);
        let values = self.values.duplicate();
        Args { positional, values, flags }
    }
}

} // verus!
