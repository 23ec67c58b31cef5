//! What holds of every parse, stated over the model and proved once and for
//! all.
//!
//! The statements speak of the tokens that the scan *reads*: a token that
//! follows a value-taking parameter is that parameter's value, whatever it
//! looks like, and is not read in its own right.

use crate::args::ArgsView;
use crate::error::ParseErrorView;
use crate::parameter::ParameterView;
use crate::registry::{is_help_token, ParamInfoView, Registry, TokenKind};
use crate::scan::{unset, ScanOutcome, ScanState};
use crate::table::Assoc;
use vstd::prelude::*;

verus! {

/// What the scan has gathered once it has read the token at index `i`.
spec fn after(reg: Registry, tokens: Seq<Seq<char>>, i: int, st: ScanState) -> ScanState {
    match reg.classify(tokens[i]) {
        TokenKind::Valued(name) => ScanState {
            values: st.values.insert(name, Some(tokens[i + 1])),
            ..st
        },
        TokenKind::Flag(name) => ScanState { flags: st.flags.insert(name), ..st },
        TokenKind::Help => st,
        TokenKind::Positional => ScanState { positional: st.positional.push(tokens[i]), ..st },
    }
}

/// A scan that completes goes on behind each token it reads.
proof fn lemma_scan_step(reg: Registry, tokens: Seq<Seq<char>>, i: int, st: ScanState)
    requires
        0 <= i < tokens.len(),
        reg.scan(tokens, i, st) is Complete,
    ensures
        !(reg.classify(tokens[i]) is Help),
        i + reg.width(tokens[i]) <= tokens.len(),
        reg.scan(tokens, i, st) == reg.scan(
            tokens,
            i + reg.width(tokens[i]),
            after(reg, tokens, i, st),
        ),
{
}

/// What a scan reads from `from` on is the token at `from` and what it reads
/// from the next token on.
proof fn lemma_meets_step(
    reg: Registry,
    tokens: Seq<Seq<char>>,
    from: int,
    i: int,
    kind: TokenKind,
)
    requires
        0 <= from < tokens.len(),
    ensures
        reg.meets(tokens, from, i, kind) <==> (i == from && reg.classify(tokens[from]) == kind)
            || reg.meets(tokens, from + reg.width(tokens[from]), i, kind),
{
}

/// The flags of a completed scan are those it had and those it read.
proof fn lemma_scan_flags(
    reg: Registry,
    tokens: Seq<Seq<char>>,
    from: int,
    st: ScanState,
    name: Seq<char>,
)
    requires
        0 <= from,
        reg.scan(tokens, from, st) is Complete,
    ensures
        reg.scan(tokens, from, st)->Complete_0.flags.contains(name) <==> st.flags.contains(name)
            || exists|i: int| reg.meets(tokens, from, i, TokenKind::Flag(name)),
    decreases tokens.len() - from,
{
    let kind = TokenKind::Flag(name);
    if from < tokens.len() {
        let next = from + reg.width(tokens[from]);
        let st2 = after(reg, tokens, from, st);
        lemma_scan_step(reg, tokens, from, st);
        lemma_scan_flags(reg, tokens, next, st2, name);
        if exists|i: int| reg.meets(tokens, from, i, kind) {
            let i = choose|i: int| reg.meets(tokens, from, i, kind);
            lemma_meets_step(reg, tokens, from, i, kind);
        }
        if exists|i: int| reg.meets(tokens, next, i, kind) {
            let i = choose|i: int| reg.meets(tokens, next, i, kind);
            lemma_meets_step(reg, tokens, from, i, kind);
        }
        if reg.classify(tokens[from]) == kind {
            lemma_meets_step(reg, tokens, from, from, kind);
        }
    }
}

/// A flag is set exactly when the scan reads it, under its canonical name or
/// under an alias, once or more often.
pub proof fn law_flag_set_iff_read(
    reg: Registry,
    tokens: Seq<Seq<char>>,
    args: ArgsView,
    name: Seq<char>,
)
    requires
        reg.parse(tokens) == Ok::<ArgsView, ParseErrorView>(args),
    ensures
        args.flags.contains(name) <==> exists|i: int|
            reg.meets(tokens, 0, i, TokenKind::Flag(name)),
{
    lemma_scan_flags(reg, tokens, 0, reg.start(), name);
}

/// A name that the scan does not read as a value-taking parameter keeps the
/// value it had.
proof fn lemma_scan_value_kept(
    reg: Registry,
    tokens: Seq<Seq<char>>,
    from: int,
    st: ScanState,
    name: Seq<char>,
)
    requires
        0 <= from,
        reg.scan(tokens, from, st) is Complete,
        forall|i: int| !reg.meets(tokens, from, i, TokenKind::Valued(name)),
    ensures
        reg.scan(tokens, from, st)->Complete_0.values.get(name) == st.values.get(name),
    decreases tokens.len() - from,
{
    let kind = TokenKind::Valued(name);
    if from < tokens.len() {
        let next = from + reg.width(tokens[from]);
        let st2 = after(reg, tokens, from, st);
        lemma_scan_step(reg, tokens, from, st);
        lemma_meets_step(reg, tokens, from, from, kind);
        assert forall|i: int| !reg.meets(tokens, next, i, kind) by {
            lemma_meets_step(reg, tokens, from, i, kind);
        }
        lemma_scan_value_kept(reg, tokens, next, st2, name);
        if let TokenKind::Valued(other) = reg.classify(tokens[from]) {
            st.values.lemma_insert_get(other, Some(tokens[from + 1]), name);
        }
    }
}

/// The value of a name is the token behind the place where the scan last
/// reads it as a value-taking parameter.
proof fn lemma_scan_value_last(
    reg: Registry,
    tokens: Seq<Seq<char>>,
    from: int,
    st: ScanState,
    name: Seq<char>,
    last: int,
)
    requires
        0 <= from,
        reg.scan(tokens, from, st) is Complete,
        reg.meets(tokens, from, last, TokenKind::Valued(name)),
        forall|i: int| i > last ==> !reg.meets(tokens, from, i, TokenKind::Valued(name)),
    ensures
        last + 1 < tokens.len(),
        reg.scan(tokens, from, st)->Complete_0.values.get(name) == Some(Some(tokens[last + 1])),
    decreases tokens.len() - from,
{
    let kind = TokenKind::Valued(name);
    let next = from + reg.width(tokens[from]);
    let st2 = after(reg, tokens, from, st);
    lemma_scan_step(reg, tokens, from, st);
    lemma_meets_step(reg, tokens, from, last, kind);
    if last == from {
        assert forall|i: int| !reg.meets(tokens, next, i, kind) by {
            lemma_meets_step(reg, tokens, from, i, kind);
        }
        lemma_scan_value_kept(reg, tokens, next, st2, name);
        st.values.lemma_insert_get(name, Some(tokens[from + 1]), name);
    } else {
        assert forall|i: int| i > last implies !reg.meets(tokens, next, i, kind) by {
            lemma_meets_step(reg, tokens, from, i, kind);
        }
        lemma_scan_value_last(reg, tokens, next, st2, name, last);
    }
}

/// A value-taking parameter that has a default and that the scan does not
/// read holds its default.
pub proof fn law_default_kept(
    reg: Registry,
    tokens: Seq<Seq<char>>,
    args: ArgsView,
    name: Seq<char>,
    default: Seq<char>,
)
    requires
        reg.parse(tokens) == Ok::<ArgsView, ParseErrorView>(args),
        reg.defaults.get(name) == Some(Some(default)),
        forall|i: int| !reg.meets(tokens, 0, i, TokenKind::Valued(name)),
    ensures
        args.values.contains_key(name),
        args.values[name] == default,
{
    lemma_scan_value_kept(reg, tokens, 0, reg.start(), name);
}

/// Of several values for one parameter the last one stays: a parameter
/// holds the token behind the place where the scan last reads it.
pub proof fn law_last_value_stays(
    reg: Registry,
    tokens: Seq<Seq<char>>,
    args: ArgsView,
    name: Seq<char>,
    last: int,
)
    requires
        reg.parse(tokens) == Ok::<ArgsView, ParseErrorView>(args),
        reg.meets(tokens, 0, last, TokenKind::Valued(name)),
        forall|i: int| i > last ==> !reg.meets(tokens, 0, i, TokenKind::Valued(name)),
    ensures
        last + 1 < tokens.len(),
        args.values.contains_key(name),
        args.values[name] == tokens[last + 1],
{
    lemma_scan_value_last(reg, tokens, 0, reg.start(), name, last);
}

/// A scan ends with a request for help exactly when it reads one.
proof fn lemma_scan_help(reg: Registry, tokens: Seq<Seq<char>>, from: int, st: ScanState)
    requires
        0 <= from,
    ensures
        reg.scan(tokens, from, st) is HelpRequested <==> exists|i: int|
            reg.meets(tokens, from, i, TokenKind::Help),
    decreases tokens.len() - from,
{
    let kind = TokenKind::Help;
    if from < tokens.len() {
        let next = from + reg.width(tokens[from]);
        let st2 = after(reg, tokens, from, st);
        if reg.classify(tokens[from]) is Help {
            lemma_meets_step(reg, tokens, from, from, kind);
        } else {
            if next <= tokens.len() {
                lemma_scan_help(reg, tokens, next, st2);
            }
            if exists|i: int| reg.meets(tokens, from, i, kind) {
                let i = choose|i: int| reg.meets(tokens, from, i, kind);
                lemma_meets_step(reg, tokens, from, i, kind);
            }
            if exists|i: int| reg.meets(tokens, next, i, kind) {
                let i = choose|i: int| reg.meets(tokens, next, i, kind);
                lemma_meets_step(reg, tokens, from, i, kind);
            }
        }
    }
}

/// A parse ends with a request for help exactly when the scan reads `-h` or
/// `--help` and the token does not resolve to a registered parameter.
pub proof fn law_help_unless_registered(reg: Registry, tokens: Seq<Seq<char>>)
    ensures
        reg.parse(tokens) == Err::<ArgsView, ParseErrorView>(ParseErrorView::HelpRequested)
            <==> exists|i: int| reg.meets(tokens, 0, i, TokenKind::Help),
        forall|i: int| #[trigger]
            reg.meets(tokens, 0, i, TokenKind::Help) ==> is_help_token(tokens[i])
                && !reg.parameters.contains_key(reg.resolve(tokens[i])),
{
    lemma_scan_help(reg, tokens, 0, reg.start());
}

/// A token that is registered, as the name of a parameter or as an alias, is
/// read as the parameter it resolves to; so `-h` and `--help`, once
/// registered, no longer ask for help.
pub proof fn law_registered_token_is_parameter(reg: Registry, token: Seq<char>)
    requires
        reg.wf(),
        reg.parameters.contains_key(token) || reg.aliases.contains_key(token),
    ensures
        reg.classify(token) == if reg.takes_value(reg.resolve(token)) {
            TokenKind::Valued(reg.resolve(token))
        } else {
            TokenKind::Flag(reg.resolve(token))
        },
{
    if reg.aliases.contains_key(token) {
        assert(reg.parameters.contains_key(reg.resolve(token)));
    }
}

/// What was registered last is read as it was registered: the alias as the
/// parameter, the canonical name as the parameter unless it is itself an
/// alias of another, and the baseline holds the default.
pub proof fn law_register_then_read(reg: Registry, p: ParameterView)
    ensures
        p.alias matches Some(alias) ==> reg.register(p).classify(alias) == if p.takes_value {
            TokenKind::Valued(p.name)
        } else {
            TokenKind::Flag(p.name)
        },
        !reg.aliases.contains_key(p.name) ==> reg.register(p).classify(p.name)
            == if p.takes_value {
            TokenKind::Valued(p.name)
        } else {
            TokenKind::Flag(p.name)
        },
        p.takes_value ==> reg.register(p).defaults.get(p.name) == Some(p.default),
{
    let info = ParamInfoView { takes_value: p.takes_value, description: p.description };
    reg.parameters.lemma_insert_get(p.name, info, p.name);
    reg.defaults.lemma_insert_get(p.name, p.default, p.name);
    if let Some(alias) = p.alias {
        reg.aliases.lemma_insert_get(alias, p.name, alias);
        reg.aliases.lemma_insert_get(alias, p.name, p.name);
    }
}

/// A later registration replaces an earlier one of the same name: a name
/// that is registered as a flag is a flag, whatever it was before, the
/// baseline holds neither a default nor a demand for it, and no input leaves
/// it without a value.
pub proof fn law_registered_again_as_flag(reg: Registry, p: ParameterView, tokens: Seq<Seq<char>>)
    requires
        reg.wf(),
        !p.takes_value,
    ensures
        reg.register(p).is_flag(p.name),
        !reg.register(p).defaults.contains_key(p.name),
        !reg.register(p).lacks_value(tokens, p.name),
{
    let info = ParamInfoView { takes_value: p.takes_value, description: p.description };
    reg.parameters.lemma_insert_get(p.name, info, p.name);
    reg.defaults.lemma_remove_get(p.name, p.name);
}

/// A scan ends for want of a value exactly when it reads no request for
/// help and reads the last token as a value-taking parameter.
proof fn lemma_scan_missing_value(
    reg: Registry,
    tokens: Seq<Seq<char>>,
    from: int,
    st: ScanState,
    name: Seq<char>,
)
    requires
        0 <= from,
    ensures
        reg.scan(tokens, from, st) == ScanOutcome::MissingValue(name) <==> reg.meets(
            tokens,
            from,
            tokens.len() - 1,
            TokenKind::Valued(name),
        ) && forall|i: int| !reg.meets(tokens, from, i, TokenKind::Help),
    decreases tokens.len() - from,
{
    let last = tokens.len() - 1;
    if from < tokens.len() {
        let next = from + reg.width(tokens[from]);
        let st2 = after(reg, tokens, from, st);
        lemma_meets_step(reg, tokens, from, from, TokenKind::Help);
        lemma_meets_step(reg, tokens, from, last, TokenKind::Valued(name));
        if !(reg.classify(tokens[from]) is Help) && next <= tokens.len() {
            lemma_scan_missing_value(reg, tokens, next, st2, name);
            if forall|i: int| !reg.meets(tokens, from, i, TokenKind::Help) {
                assert forall|i: int| !reg.meets(tokens, next, i, TokenKind::Help) by {
                    lemma_meets_step(reg, tokens, from, i, TokenKind::Help);
                }
            }
            if forall|i: int| !reg.meets(tokens, next, i, TokenKind::Help) {
                assert forall|i: int| !reg.meets(tokens, from, i, TokenKind::Help) by {
                    lemma_meets_step(reg, tokens, from, i, TokenKind::Help);
                }
            }
        } else if !(reg.classify(tokens[from]) is Help) {
            assert forall|i: int| !reg.meets(tokens, from, i, TokenKind::Help) by {
                lemma_meets_step(reg, tokens, from, i, TokenKind::Help);
            }
        }
    }
}

/// A parse fails for want of a value exactly when the scan reads no request
/// for help and reads the last token as a value-taking parameter, which is
/// then the one that the error names.
pub proof fn law_missing_value(reg: Registry, tokens: Seq<Seq<char>>, name: Seq<char>)
    ensures
        reg.parse(tokens) == Err::<ArgsView, ParseErrorView>(
            ParseErrorView::MissingValue(name),
        ) <==> reg.meets(tokens, 0, tokens.len() - 1, TokenKind::Valued(name)) && forall|i: int|
            !reg.meets(tokens, 0, i, TokenKind::Help),
{
    lemma_scan_missing_value(reg, tokens, 0, reg.start(), name);
}

/// The places of the positional arguments: each is read as one, they rise,
/// and none is left out.
proof fn lemma_positional_places(reg: Registry, tokens: Seq<Seq<char>>, from: int)
    requires
        0 <= from,
    ensures
        forall|k: int|
            0 <= k < reg.positional_places(tokens, from).len() ==> reg.meets(
                tokens,
                from,
                #[trigger] reg.positional_places(tokens, from)[k],
                TokenKind::Positional,
            ),
        forall|j: int, k: int|
            0 <= j < k < reg.positional_places(tokens, from).len() ==> reg.positional_places(
                tokens,
                from,
            )[j] < reg.positional_places(tokens, from)[k],
        forall|i: int|
            reg.meets(tokens, from, i, TokenKind::Positional) ==> reg.positional_places(
                tokens,
                from,
            ).contains(i),
    decreases tokens.len() + 1 - from,
{
    let kind = TokenKind::Positional;
    let places = reg.positional_places(tokens, from);
    if from < tokens.len() {
        let next = from + reg.width(tokens[from]);
        let rest = reg.positional_places(tokens, next);
        lemma_positional_places(reg, tokens, next);
        let shift: int = if reg.classify(tokens[from]) is Positional {
            1
        } else {
            0
        };
        assert forall|k: int| shift <= k < places.len() implies places[k] == rest[k - shift] by {}
        assert forall|k: int| 0 <= k < places.len() implies reg.meets(
            tokens,
            from,
            #[trigger] places[k],
            kind,
        ) by {
            lemma_meets_step(reg, tokens, from, places[k], kind);
        }
        assert forall|i: int| reg.meets(tokens, from, i, kind) implies places.contains(i) by {
            lemma_meets_step(reg, tokens, from, i, kind);
            if i == from {
                assert(places[0] == i);
            } else {
                let k = choose|k: int| 0 <= k < rest.len() && rest[k] == i;
                assert(places[k + shift] == i);
            }
        }
    }
}

/// The positional arguments of a completed scan are those it had and then
/// the tokens at the places where it read one.
proof fn lemma_scan_positional(reg: Registry, tokens: Seq<Seq<char>>, from: int, st: ScanState)
    requires
        0 <= from,
        reg.scan(tokens, from, st) is Complete,
    ensures
        reg.scan(tokens, from, st)->Complete_0.positional == st.positional
            + reg.positional_places(tokens, from).map_values(|i: int| tokens[i]),
    decreases tokens.len() - from,
{
    if from < tokens.len() {
        let next = from + reg.width(tokens[from]);
        let st2 = after(reg, tokens, from, st);
        lemma_scan_step(reg, tokens, from, st);
        lemma_scan_positional(reg, tokens, next, st2);
    }
}

/// The positional arguments are the tokens that the scan reads and that are
/// neither a registered parameter, nor an alias of one, nor a request for
/// help: all of them, only them, and in the order of the input. The result
/// gives the index in the input of each positional argument.
pub proof fn law_positional_in_order(
    reg: Registry,
    tokens: Seq<Seq<char>>,
    args: ArgsView,
) -> (places: Seq<int>)
    requires
        reg.parse(tokens) == Ok::<ArgsView, ParseErrorView>(args),
    ensures
        places == reg.positional_places(tokens, 0),
        places.len() == args.positional.len(),
        forall|k: int|
            0 <= k < places.len() ==> reg.meets(
                tokens,
                0,
                #[trigger] places[k],
                TokenKind::Positional,
            ),
        forall|k: int| 0 <= k < places.len() ==> #[trigger] args.positional[k] == tokens[places[k]],
        forall|j: int, k: int| 0 <= j < k < places.len() ==> places[j] < places[k],
        forall|i: int| reg.meets(tokens, 0, i, TokenKind::Positional) ==> places.contains(i),
{
    let places = reg.positional_places(tokens, 0);
    lemma_positional_places(reg, tokens, 0);
    lemma_scan_positional(reg, tokens, 0, reg.start());
    places
}

/// The arguments hold a value for every name that is registered as a
/// value-taking parameter, and for no other name: not for a flag, not for a
/// name that was value-taking once and is a flag now, not for a name that was
/// never registered.
pub proof fn law_values_for_value_taking_names(
    reg: Registry,
    tokens: Seq<Seq<char>>,
    args: ArgsView,
    name: Seq<char>,
)
    requires
        reg.wf(),
        reg.parse(tokens) == Ok::<ArgsView, ParseErrorView>(args),
    ensures
        args.values.contains_key(name) <==> reg.takes_value(name),
{
    lemma_scan_keys(reg, tokens, 0, reg.start());
    assert(reg.defaults.contains_key(name) <==> reg.takes_value(name));
}

/// A scan comes to its end exactly when it reads no request for help and
/// does not read the last token as a value-taking parameter.
proof fn lemma_scan_completes(reg: Registry, tokens: Seq<Seq<char>>)
    ensures
        reg.scan(tokens, 0, reg.start()) is Complete <==> reg.completes(tokens),
{
    let outcome = reg.scan(tokens, 0, reg.start());
    lemma_scan_help(reg, tokens, 0, reg.start());
    if outcome is Complete {
        assert forall|name: Seq<char>|
            !reg.meets(tokens, 0, tokens.len() - 1, TokenKind::Valued(name)) by {
            lemma_scan_missing_value(reg, tokens, 0, reg.start(), name);
        }
    }
    if let ScanOutcome::MissingValue(name) = outcome {
        lemma_scan_missing_value(reg, tokens, 0, reg.start(), name);
    }
}

/// A completed scan holds its values under the names it started with, in
/// the same order.
proof fn lemma_scan_keys(reg: Registry, tokens: Seq<Seq<char>>, from: int, st: ScanState)
    requires
        0 <= from,
        reg.scan(tokens, from, st) is Complete,
        forall|n: Seq<char>| reg.takes_value(n) ==> st.values.contains_key(n),
    ensures
        reg.scan(tokens, from, st)->Complete_0.values.keys() == st.values.keys(),
    decreases tokens.len() - from,
{
    if from < tokens.len() {
        let next = from + reg.width(tokens[from]);
        let st2 = after(reg, tokens, from, st);
        lemma_scan_step(reg, tokens, from, st);
        if let TokenKind::Valued(other) = reg.classify(tokens[from]) {
            assert(reg.takes_value(other));
            st.values.lemma_insert_keys(other, Some(tokens[from + 1]));
            assert forall|n: Seq<char>|
                st2.values.contains_key(n) <==> st.values.contains_key(n) by {
                st.values.lemma_insert_get(other, Some(tokens[from + 1]), n);
            }
        }
        lemma_scan_keys(reg, tokens, next, st2);
    }
}

/// A name holds no value at the end of a completed scan exactly when it
/// held none at the start and the scan did not read it.
proof fn lemma_scan_unset(
    reg: Registry,
    tokens: Seq<Seq<char>>,
    from: int,
    st: ScanState,
    name: Seq<char>,
)
    requires
        0 <= from,
        reg.scan(tokens, from, st) is Complete,
    ensures
        reg.scan(tokens, from, st)->Complete_0.values.get(name) == Some(None::<Seq<char>>) <==> (
        st.values.get(name) == Some(None::<Seq<char>>) && forall|i: int|
            !reg.meets(tokens, from, i, TokenKind::Valued(name))),
    decreases tokens.len() - from,
{
    let kind = TokenKind::Valued(name);
    if from < tokens.len() {
        let next = from + reg.width(tokens[from]);
        let st2 = after(reg, tokens, from, st);
        lemma_scan_step(reg, tokens, from, st);
        lemma_scan_unset(reg, tokens, next, st2, name);
        lemma_meets_step(reg, tokens, from, from, kind);
        if let TokenKind::Valued(other) = reg.classify(tokens[from]) {
            st.values.lemma_insert_get(other, Some(tokens[from + 1]), name);
        }
        if forall|i: int| !reg.meets(tokens, from, i, kind) {
            assert forall|i: int| !reg.meets(tokens, next, i, kind) by {
                lemma_meets_step(reg, tokens, from, i, kind);
            }
        }
        if reg.classify(tokens[from]) != kind && forall|i: int| !reg.meets(tokens, next, i, kind) {
            assert forall|i: int| !reg.meets(tokens, from, i, kind) by {
                lemma_meets_step(reg, tokens, from, i, kind);
            }
        }
    }
}

/// The names without a value are the names that pass `lacks`, where `lacks`
/// says of each name whether it holds none.
proof fn lemma_unset_by_name(
    values: Assoc<Option<Seq<char>>>,
    lacks: spec_fn(Seq<char>) -> bool,
)
    requires
        forall|j: int|
            0 <= j < values.entries.len() ==> ((#[trigger] values.entries[j]).1 is None <==> lacks(
                values.entries[j].0,
            )),
    ensures
        unset(values) == values.keys().filter(lacks),
    decreases values.entries.len(),
{
    reveal(Seq::filter);
    if values.entries.len() > 0 {
        let shorter = Assoc { entries: values.entries.drop_last() };
        let tail = values.entries.last();
        lemma_unset_by_name(shorter, lacks);
        assert(values.keys().drop_last() =~= shorter.keys());
        assert(unset(values) =~= if tail.1 is None {
            unset(shorter).push(tail.0)
        } else {
            unset(shorter)
        });
    }
}

/// What a completed scan leaves without a value: the value-taking names
/// that lack one, in the order of the baseline.
proof fn lemma_scan_leaves_unset(reg: Registry, tokens: Seq<Seq<char>>)
    requires
        reg.wf(),
        reg.scan(tokens, 0, reg.start()) is Complete,
    ensures
        unset(reg.scan(tokens, 0, reg.start())->Complete_0.values) == reg.defaults.keys().filter(
            |name: Seq<char>| reg.lacks_value(tokens, name),
        ),
{
    let fin = reg.scan(tokens, 0, reg.start())->Complete_0;
    let lacks = |name: Seq<char>| reg.lacks_value(tokens, name);
    lemma_scan_keys(reg, tokens, 0, reg.start());
    assert forall|j: int| 0 <= j < fin.values.entries.len() implies ((
    #[trigger] fin.values.entries[j]).1 is None <==> lacks(fin.values.entries[j].0)) by {
        let name = fin.values.entries[j].0;
        assert(fin.values.keys().len() == fin.values.entries.len());
        assert(reg.defaults.keys().len() == reg.defaults.entries.len());
        assert(fin.values.keys()[j] == name && reg.defaults.keys()[j] == name);
        fin.values.lemma_entry_get(j);
        reg.defaults.lemma_entry_get(j);
        assert(reg.defaults.contains_key(name) && reg.takes_value(name));
        lemma_scan_unset(reg, tokens, 0, reg.start(), name);
    }
    lemma_unset_by_name(fin.values, lacks);
}

/// A parse gives arguments exactly when the scan comes to its end and no
/// name that is registered as value-taking is left without a value.
pub proof fn law_success(reg: Registry, tokens: Seq<Seq<char>>)
    requires
        reg.wf(),
    ensures
        reg.parse(tokens) is Ok <==> reg.completes(tokens) && forall|name: Seq<char>|
            !reg.lacks_value(tokens, name),
{
    let lacks = |name: Seq<char>| reg.lacks_value(tokens, name);
    let candidates = reg.defaults.keys();
    lemma_scan_completes(reg, tokens);
    if reg.scan(tokens, 0, reg.start()) is Complete {
        lemma_scan_leaves_unset(reg, tokens);
        if candidates.filter(lacks).len() > 0 {
            candidates.lemma_filter_pred(lacks, 0);
        }
        if exists|name: Seq<char>| reg.lacks_value(tokens, name) {
            let name = choose|name: Seq<char>| reg.lacks_value(tokens, name);
            reg.defaults.lemma_find(name);
            let j = reg.defaults.find(name)->0;
            candidates.lemma_filter_contains(lacks, j);
        }
    }
}

/// A parse fails for want of required values exactly when the scan comes
/// to its end and some name that is registered as value-taking is left
/// without a value. The error then names every such name once, and no
/// other name, in the order of the baseline.
pub proof fn law_missing_required(reg: Registry, tokens: Seq<Seq<char>>, names: Seq<Seq<char>>)
    requires
        reg.wf(),
    ensures
        reg.parse(tokens) == Err::<ArgsView, ParseErrorView>(
            ParseErrorView::MissingRequired(names),
        ) <==> reg.completes(tokens) && names.len() > 0 && names == reg.defaults.keys().filter(
            |name: Seq<char>| reg.lacks_value(tokens, name),
        ),
        reg.defaults.keys().filter(|name: Seq<char>| reg.lacks_value(tokens, name)).no_duplicates(),
{
    let lacks = |name: Seq<char>| reg.lacks_value(tokens, name);
    lemma_scan_completes(reg, tokens);
    if reg.scan(tokens, 0, reg.start()) is Complete {
        lemma_scan_leaves_unset(reg, tokens);
    }
    lemma_filter_no_duplicates(reg.defaults.keys(), lacks);
}

/// Leaving items out of a sequence without repeats gives one without
/// repeats.
proof fn lemma_filter_no_duplicates(s: Seq<Seq<char>>, keep: spec_fn(Seq<char>) -> bool)
    requires
        s.no_duplicates(),
    ensures
        s.filter(keep).no_duplicates(),
    decreases s.len(),
{
    reveal(Seq::filter);
    if s.len() > 0 {
        let shorter = s.drop_last();
        lemma_filter_no_duplicates(shorter, keep);
        if keep(s.last()) {
            let kept = shorter.filter(keep);
            assert forall|i: int| 0 <= i < kept.len() implies kept[i] != s.last() by {
                shorter.lemma_filter_contains_rev(keep, kept[i]);
                let k = choose|k: int| 0 <= k < shorter.len() && shorter[k] == kept[i];
                assert(s[k] == kept[i]);
            }
        }
    }
}

} // verus!
