//! The scan of the input as a mathematical object: one pass from left to
//! right over the tokens, after which no value may be missing.

use crate::args::ArgsView;
use crate::error::ParseErrorView;
use crate::registry::{Registry, TokenKind};
use crate::table::Assoc;
use vstd::prelude::*;

verus! {

/// What the scan has gathered so far.
pub struct ScanState {
    /// The positional arguments, in the order of the input.
    pub positional: Seq<Seq<char>>,
    /// The baseline, with the values that the input gave written over it.
    pub values: Assoc<Option<Seq<char>>>,
    /// The flags that the input held.
    pub flags: Set<Seq<char>>,
}

/// How a scan ends.
pub enum ScanOutcome {
    /// The input is used up.
    Complete(ScanState),
    /// A token asked for help; the scan stopped there.
    HelpRequested,
    /// The last token is this value-taking parameter, and its value is
    /// missing.
    MissingValue(Seq<char>),
}

/// The names that hold no value, in the order of `values`.
pub open spec fn unset(values: Assoc<Option<Seq<char>>>) -> Seq<Seq<char>> {
    values.entries.filter(|e: (Seq<char>, Option<Seq<char>>)| e.1 is None).map_values(
        |e: (Seq<char>, Option<Seq<char>>)| e.0,
    )
}

/// Each name of `values` with the value it holds.
pub open spec fn settled(values: Assoc<Option<Seq<char>>>) -> Map<Seq<char>, Seq<char>> {
    Map::new(|name: Seq<char>| values.contains_key(name), |name: Seq<char>| values.get(name)->0->0)
}

impl Registry {
    /// Where the scan starts: nothing gathered, every value at its default.
    pub open spec fn start(self) -> ScanState {
        ScanState { positional: Seq::empty(), values: self.defaults, flags: Set::empty() }
    }

    /// The scan of `tokens` from index `i` on, with `st` gathered before.
    ///
    /// A value-taking parameter takes the token after it as its value,
    /// whatever that token is, and a later value replaces an earlier one. A
    /// flag is noted. A request for help ends the scan, and so does a
    /// value-taking parameter with no token after it. Any other token is a
    /// positional argument.
    pub open spec fn scan(self, tokens: Seq<Seq<char>>, i: int, st: ScanState) -> ScanOutcome
        decreases tokens.len() - i,
    {
        if i < 0 || i >= tokens.len() {
            ScanOutcome::Complete(st)
        } else {
            match self.classify(tokens[i]) {
                TokenKind::Valued(name) => if i + 1 < tokens.len() {
                    self.scan(
                        tokens,
                        i + 2,
                        ScanState { values: st.values.insert(name, Some(tokens[i + 1])), ..st },
                    )
                } else {
                    ScanOutcome::MissingValue(name)
                },
                TokenKind::Flag(name) => self.scan(
                    tokens,
                    i + 1,
                    ScanState { flags: st.flags.insert(name), ..st },
                ),
                TokenKind::Help => ScanOutcome::HelpRequested,
                TokenKind::Positional => self.scan(
                    tokens,
                    i + 1,
                    ScanState { positional: st.positional.push(tokens[i]), ..st },
                ),
            }
        }
    }

    /// How many tokens the scan takes when it reads `token`: a value-taking
    /// parameter and its value are two, anything else is one.
    pub open spec fn width(self, token: Seq<char>) -> int {
        if self.classify(token) is Valued {
            2
        } else {
            1
        }
    }

    /// Whether a scan that stands at index `from` comes to stand at index
    /// `i`, so that the token there is read in its own right and not as the
    /// value of the token before it. This looks at how far each token
    /// carries the scan, not at whether the scan stops: a request for help
    /// counts as one token.
    pub open spec fn reads(self, tokens: Seq<Seq<char>>, from: int, i: int) -> bool
        decreases i - from,
    {
        if from >= i || from < 0 || from >= tokens.len() {
            from == i
        } else {
            let next = from + self.width(tokens[from]);
            if next > i {
                false
            } else {
                self.reads(tokens, next, i)
            }
        }
    }

    /// Whether a scan that stands at index `from` reads a token of the kind
    /// `kind` at index `i`.
    pub open spec fn meets(
        self,
        tokens: Seq<Seq<char>>,
        from: int,
        i: int,
        kind: TokenKind,
    ) -> bool {
        &&& from <= i < tokens.len()
        &&& self.reads(tokens, from, i)
        &&& self.classify(tokens[i]) == kind
    }

    /// The indices from `from` on at which the scan reads a positional
    /// argument, in rising order.
    pub open spec fn positional_places(self, tokens: Seq<Seq<char>>, from: int) -> Seq<int>
        decreases tokens.len() + 1 - from,
    {
        if from < 0 || from >= tokens.len() {
            Seq::empty()
        } else {
            let rest = self.positional_places(tokens, from + self.width(tokens[from]));
            if self.classify(tokens[from]) is Positional {
                seq![from] + rest
            } else {
                rest
            }
        }
    }

    /// Whether a scan of `tokens` comes to its end: it reads no request for
    /// help, and it does not read the last token as a value-taking parameter.
    pub open spec fn completes(self, tokens: Seq<Seq<char>>) -> bool {
        &&& forall|i: int| !self.meets(tokens, 0, i, TokenKind::Help)
        &&& forall|name: Seq<char>|
            !self.meets(tokens, 0, tokens.len() - 1, TokenKind::Valued(name))
    }

    /// Whether `name` is left without a value: it is registered as a
    /// value-taking parameter, it has no default, and the scan does not read
    /// it.
    pub open spec fn lacks_value(self, tokens: Seq<Seq<char>>, name: Seq<char>) -> bool {
        &&& self.takes_value(name)
        &&& self.defaults.get(name) == Some(None::<Seq<char>>)
        &&& forall|i: int| !self.meets(tokens, 0, i, TokenKind::Valued(name))
    }

    /// What parsing `tokens` gives: the scan of all of them, and then the
    /// arguments, unless a name of the baseline still holds no value. In a
    /// well-formed registry the names of the baseline are the names
    /// registered as value-taking.
    pub open spec fn parse(self, tokens: Seq<Seq<char>>) -> Result<ArgsView, ParseErrorView> {
        match self.scan(tokens, 0, self.start()) {
            ScanOutcome::HelpRequested => Err(ParseErrorView::HelpRequested),
            ScanOutcome::MissingValue(name) => Err(ParseErrorView::MissingValue(name)),
            ScanOutcome::Complete(st) => if unset(st.values).len() > 0 {
                Err(ParseErrorView::MissingRequired(unset(st.values)))
            } else {
                Ok(
                    ArgsView {
                        positional: st.positional,
                        values: settled(st.values),
                        flags: st.flags,
                    },
                )
            },
        }
    }
}

/// `unset`, entry by entry: a new last entry adds its name where it holds no
/// value.
pub proof fn lemma_unset_push(
    values: Assoc<Option<Seq<char>>>,
    name: Seq<char>,
    val: Option<Seq<char>>,
)
    ensures
        unset(Assoc { entries: values.entries.push((name, val)) }) == if val is None {
            unset(values).push(name)
        } else {
            unset(values)
        },
{
    let holds_none = |e: (Seq<char>, Option<Seq<char>>)| e.1 is None;
    let key = |e: (Seq<char>, Option<Seq<char>>)| e.0;
    let longer = values.entries.push((name, val));
    reveal(Seq::filter);
    assert(longer.drop_last() =~= values.entries);
    if val is None {
        assert(longer.filter(holds_none).map_values(key) =~= values.entries.filter(
            holds_none,
        ).map_values(key).push(name));
    }
}

/// A table that holds, for each name of `values`, the value that it holds
/// there, is `settled(values)` as a map.
pub proof fn lemma_settled(values: Assoc<Option<Seq<char>>>, concrete: Assoc<Seq<char>>)
    requires
        concrete.entries.len() == values.entries.len(),
        forall|i: int| 0 <= i < values.entries.len() ==> (#[trigger] values.entries[i]).1 is Some,
        forall|i: int|
            0 <= i < values.entries.len() ==> #[trigger] concrete.entries[i] == (
                values.entries[i].0,
                values.entries[i].1->0,
            ),
    ensures
        concrete.to_map() == settled(values),
{
    assert(concrete.keys() =~= values.keys());
    assert forall|name: Seq<char>|
        concrete.contains_key(name) == values.contains_key(name) && (concrete.contains_key(name)
            ==> concrete.get(name)->0 == values.get(name)->0->0) by {
        concrete.lemma_find(name);
        values.lemma_find(name);
    }
}

} // verus!
