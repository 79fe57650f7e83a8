//! From a hotkey description to the hotkey it names.
//!
//! A description is a list of tokens joined by `+`, such as `CTRL+SHIFT+K`.
//! Case and the whitespace around a token do not count, empty tokens are
//! passed over, and the modifiers may come in any order.

use vstd::prelude::*;
use vstd::pervasive::unreached;
use crate::error::ParseError;
use crate::error::ParseErrorView;
use crate::hotkey::Hotkey;
use crate::hotkey::Modifier;
use crate::hotkey::Modifiers;
use crate::keys::KeyToken;
use crate::text::spells;
use crate::text::split_chars;
use crate::text::split_plus;
use crate::text::lemma_blank_is_one_empty_token;
use crate::text::text_of;
use crate::text::trim;
use crate::text::trim_chars;
use crate::text::upper;
use crate::text::upper_chars;
use crate::text::views;

verus! {

/// The modifier that an upper-case token names, if it names one.
pub open spec fn modifier_alias(token: Seq<char>) -> Option<Modifier> {
    if token == "CTRL"@ || token == "CONTROL"@ {
        Some(Modifier::Ctrl)
    } else if token == "SHIFT"@ {
        Some(Modifier::Shift)
    } else if token == "ALT"@ || token == "OPTION"@ {
        Some(Modifier::Alt)
    } else if token == "ALTGR"@ {
        Some(Modifier::AltGr)
    } else if token == "SUPER"@ || token == "CMD"@ || token == "COMMAND"@ || token == "WIN"@
        || token == "META"@ {
        Some(Modifier::Super)
    } else {
        None
    }
}

/// The tokens of an upper-case description: its pieces between `+` signs,
/// each without the whitespace around it.
pub open spec fn tokens(text: Seq<char>) -> Seq<Seq<char>> {
    Seq::new(split_plus(text).len(), |i: int| trim(split_plus(text)[i]))
}

/// Whether a token is neither empty nor a modifier: it has to name a key.
pub open spec fn is_other(token: Seq<char>) -> bool {
    token.len() > 0 && modifier_alias(token) is None
}

/// The tokens that have to name a key, in their order.
pub open spec fn others(tokens: Seq<Seq<char>>) -> Seq<Seq<char>> {
    tokens.filter(|t: Seq<char>| is_other(t))
}

/// Whether one of the tokens names the modifier `m`.
pub open spec fn names(tokens: Seq<Seq<char>>, m: Modifier) -> bool {
    exists|i: int| 0 <= i < tokens.len() && modifier_alias(#[trigger] tokens[i]) == Some(m)
}

/// The set of the modifiers that the tokens name.
pub open spec fn named_modifiers(tokens: Seq<Seq<char>>) -> Modifiers {
    Modifiers {
        ctrl: names(tokens, Modifier::Ctrl),
        shift: names(tokens, Modifier::Shift),
        alt: names(tokens, Modifier::Alt),
        alt_gr: names(tokens, Modifier::AltGr),
        super_key: names(tokens, Modifier::Super),
    }
}

/// The first of `others` that names no key.
pub open spec fn first_unknown(others: Seq<Seq<char>>) -> Option<Seq<char>>
    decreases others.len(),
{
    if others.len() == 0 {
        None
    } else {
        match first_unknown(others.drop_last()) {
            Some(token) => Some(token),
            None => if KeyToken::named_by(others.last()) is None {
                Some(others.last())
            } else {
                None
            },
        }
    }
}

/// The hotkey made of the named modifiers and of the tokens that have to
/// name a key: an unknown token fails first, then their number must be one.
pub open spec fn assemble(modifiers: Modifiers, others: Seq<Seq<char>>) -> Result<
    Hotkey,
    ParseErrorView,
> {
    match first_unknown(others) {
        Some(token) => Err(ParseErrorView::UnknownToken(token)),
        None => if others.len() == 0 {
            Err(ParseErrorView::MissingKey)
        } else if others.len() > 1 {
            Err(ParseErrorView::MultipleKeys)
        } else {
            match KeyToken::named_by(others[0]) {
                Some(key) => Ok(
                    Hotkey { modifiers: modifiers.join(key.implied), key: key.code },
                ),
                None => Err(ParseErrorView::UnknownToken(others[0])),
            }
        },
    }
}

/// What an upper-case description parses to.
pub open spec fn parse_text(text: Seq<char>) -> Result<Hotkey, ParseErrorView> {
    if trim(text).len() == 0 {
        Err(ParseErrorView::EmptyDescription)
    } else {
        assemble(named_modifiers(tokens(text)), others(tokens(text)))
    }
}

/// What a description parses to.
pub open spec fn parse_spec(description: Seq<char>) -> Result<Hotkey, ParseErrorView> {
    parse_text(upper(description))
}

/// The result of `parse` as contracts see it.
pub open spec fn outcome_view(r: Result<Hotkey, ParseError>) -> Result<Hotkey, ParseErrorView> {
    match r {
        Ok(hotkey) => Ok(hotkey),
        Err(e) => Err(e@),
    }
}

/// The modifier that an upper-case token names, if it names one.
pub fn modifier_for(token: &Vec<char>) -> (r: Option<Modifier>)
    ensures
        r == modifier_alias(token@),
{
    if spells(token, "CTRL") || spells(token, "CONTROL") {
        Some(Modifier::Ctrl)
    } else if spells(token, "SHIFT") {
        Some(Modifier::Shift)
    } else if spells(token, "ALT") || spells(token, "OPTION") {
        Some(Modifier::Alt)
    } else if spells(token, "ALTGR") {
        Some(Modifier::AltGr)
    } else if spells(token, "SUPER") || spells(token, "CMD") || spells(token, "COMMAND")
        || spells(token, "WIN") || spells(token, "META") {
        Some(Modifier::Super)
    } else {
        None
    }
}

/// Adding a token to a list adds the modifier it names, if it names one.
pub proof fn lemma_names_push(tokens: Seq<Seq<char>>, token: Seq<char>, m: Modifier)
    ensures
        names(tokens.push(token), m) == (names(tokens, m) || modifier_alias(token) == Some(m)),
{
    let longer = tokens.push(token);
    if names(longer, m) {
        let i = choose|i: int| 0 <= i < longer.len() && modifier_alias(#[trigger] longer[i]) == Some(m);
        if i < tokens.len() {
            assert(tokens[i] == longer[i]);
        }
    }
    if names(tokens, m) {
        let i = choose|i: int| 0 <= i < tokens.len() && modifier_alias(#[trigger] tokens[i]) == Some(m);
        assert(longer[i] == tokens[i]);
    }
    if modifier_alias(token) == Some(m) {
        assert(longer[tokens.len() as int] == token);
    }
}

/// Parses a hotkey description.
///
/// Fails with `EmptyDescription` where nothing but whitespace is given, with
/// `UnknownToken` at the first token that is neither a modifier nor a key,
/// with `MissingKey` where no token names a key and with `MultipleKeys`
/// where more than one does.
pub fn parse(description: &str) -> (r: Result<Hotkey, ParseError>)
    ensures
        outcome_view(r) == parse_spec(description@),
{
    let chars = upper_chars(description);
    if trim_chars(&chars).len() == 0 {
        return Err(ParseError::EmptyDescription);
    }
    let pieces = split_chars(&chars);
    let ghost all = tokens(chars@);
    let mut modifiers = Modifiers::none();
    let mut unknown: Option<String> = None;
    let mut first: Option<KeyToken> = None;
    let mut count: usize = 0;
    let mut i: usize = 0;
    assert(all.take(0) =~= Seq::<Seq<char>>::empty());
    while i < pieces.len()
        invariant
            i <= pieces.len(),
            views(pieces@) == split_plus(chars@),
            all == tokens(chars@),
            all.len() == pieces.len(),
            forall|m: Modifier| modifiers.has(m) == names(all.take(i as int), m),
            count == others(all.take(i as int)).len(),
            count <= i,
            match unknown {
                Some(token) => first_unknown(others(all.take(i as int))) == Some(token@),
                None => first_unknown(others(all.take(i as int))) is None,
            },
            count > 0 ==> first == KeyToken::named_by(others(all.take(i as int))[0]),
        decreases pieces.len() - i,
    {
        let token = trim_chars(&pieces[i]);
        let ghost before = all.take(i as int);
        let ghost seen = others(before);
        proof {
            assert(views(pieces@)[i as int] == pieces@[i as int]@);
            assert(all[i as int] == token@);
            assert(all.take(i + 1) =~= before.push(token@));
            before.lemma_filter_push(token@, |t: Seq<char>| is_other(t));
            assert forall|m: Modifier|
                names(all.take(i + 1), m) == (names(before, m) || modifier_alias(token@) == Some(
                    m,
                )) by {
                lemma_names_push(before, token@, m);
            }
        }
        match modifier_for(&token) {
            Some(m) => {
                let ghost held = modifiers;
                modifiers = modifiers.with(m);
                assert forall|n: Modifier| modifiers.has(n) == names(all.take(i + 1), n) by {
                    assert(modifiers.has(n) == (n == m || held.has(n)));
                    assert(held.has(n) == names(before, n));
                }
            },
            None => {
                assert forall|n: Modifier| modifiers.has(n) == names(all.take(i + 1), n) by {
                    assert(modifiers.has(n) == names(before, n));
                }
                if token.len() > 0 {
                    let text = text_of(&token);
                    let key = KeyToken::resolve(text.as_str());
                    assert(others(all.take(i + 1)) == seen.push(token@));
                    assert(seen.push(token@).drop_last() =~= seen);
                    if unknown.is_none() && key.is_none() {
                        unknown = Some(text);
                    }
                    if count == 0 {
                        first = key;
                    }
                    count += 1;
                }
            },
        }
        i += 1;
    }
    assert(all.take(i as int) =~= all);
    let ghost rest = others(all);
    proof {
        let named = named_modifiers(all);
        assert(modifiers.has(Modifier::Ctrl) == named.ctrl);
        assert(modifiers.has(Modifier::Shift) == named.shift);
        assert(modifiers.has(Modifier::Alt) == named.alt);
        assert(modifiers.has(Modifier::AltGr) == named.alt_gr);
        assert(modifiers.has(Modifier::Super) == named.super_key);
        assert(modifiers == named);
    }
    match unknown {
        Some(token) => Err(ParseError::UnknownToken(token)),
        None => {
            if count == 0 {
                Err(ParseError::MissingKey)
            } else if count > 1 {
                Err(ParseError::MultipleKeys)
            } else {
                match first {
                    Some(key) => Ok(
                        Hotkey { modifiers: modifiers.union(key.implied), key: key.code },
                    ),
                    None => {
                        proof {
                            assert(rest.drop_last().len() == 0);
                            assert(first_unknown(rest.drop_last()) is None);
                            assert(rest.last() == rest[0]);
                        }
                        unreached()
                    },
                }
            }
        },
    }
}

/// Letter case does not count: two descriptions that are the same once their
/// ASCII letters are in upper case parse to the same result.
pub proof fn lemma_parse_ignores_case(first: Seq<char>, second: Seq<char>)
    requires
        upper(first) == upper(second),
    ensures
        parse_spec(first) == parse_spec(second),
{
}

/// A description of whitespace alone holds no token that has to name a key.
pub proof fn lemma_blank_has_no_others(text: Seq<char>)
    requires
        trim(text).len() == 0,
    ensures
        others(tokens(text)).len() == 0,
{
    lemma_blank_is_one_empty_token(text);
    let all = tokens(text);
    assert(all =~= Seq::<Seq<char>>::empty().push(trim(text)));
    Seq::<Seq<char>>::empty().lemma_filter_push(trim(text), |t: Seq<char>| is_other(t));
    Seq::<Seq<char>>::empty().lemma_filter_len(|t: Seq<char>| is_other(t));
}

/// Neither the order of the modifier tokens nor letter case counts: where a
/// description is valid, every description that names the same modifiers,
/// in whatever order, case and number, and holds the same other tokens in
/// the same order parses to the same hotkey.
pub proof fn lemma_parse_ignores_modifier_order(first: Seq<char>, second: Seq<char>)
    requires
        parse_spec(first) is Ok,
        forall|m: Modifier|
            names(tokens(upper(first)), m) == names(tokens(upper(second)), m),
        others(tokens(upper(first))) == others(tokens(upper(second))),
    ensures
        parse_spec(second) == parse_spec(first),
{
    let a = tokens(upper(first));
    let b = tokens(upper(second));
    assert(names(a, Modifier::Ctrl) == names(b, Modifier::Ctrl));
    assert(names(a, Modifier::Shift) == names(b, Modifier::Shift));
    assert(names(a, Modifier::Alt) == names(b, Modifier::Alt));
    assert(names(a, Modifier::AltGr) == names(b, Modifier::AltGr));
    assert(names(a, Modifier::Super) == names(b, Modifier::Super));
    assert(named_modifiers(a) == named_modifiers(b));
    if trim(upper(second)).len() == 0 {
        lemma_blank_has_no_others(upper(second));
    }
}

/// A token is kept as often as it occurs where it has to name a key, and
/// not at all where it does not.
pub proof fn lemma_others_count(tokens: Seq<Seq<char>>, token: Seq<char>)
    ensures
        others(tokens).to_multiset().count(token) == if is_other(token) {
            tokens.to_multiset().count(token)
        } else {
            0
        },
    decreases tokens.len(),
{
    broadcast use vstd::seq_lib::group_to_multiset_ensures;

    if tokens.len() == 0 {
        Seq::<Seq<char>>::empty().lemma_filter_len(|t: Seq<char>| is_other(t));
        assert(tokens =~= Seq::<Seq<char>>::empty());
        assert(others(tokens) =~= Seq::<Seq<char>>::empty());
        assert(tokens.to_multiset().len() == 0);
        assert(others(tokens).to_multiset().len() == 0);
    } else {
        let head = tokens.drop_last();
        let last = tokens.last();
        assert(tokens =~= head.push(last));
        lemma_others_count(head, token);
        head.lemma_filter_push(last, |t: Seq<char>| is_other(t));
        assert(tokens.to_multiset() =~= head.to_multiset().insert(last));
        if is_other(last) {
            assert(others(tokens) == others(head).push(last));
            assert(others(tokens).to_multiset() =~= others(head).to_multiset().insert(last));
        }
    }
}

/// The order of the tokens does not count: where a description is valid,
/// every description made of the same tokens, however arranged, parses to
/// the same hotkey. Tokens are compared without regard to letter case and
/// to the whitespace around them.
pub proof fn lemma_parse_ignores_token_order(first: Seq<char>, second: Seq<char>)
    requires
        parse_spec(first) is Ok,
        tokens(upper(first)).to_multiset() == tokens(upper(second)).to_multiset(),
    ensures
        parse_spec(second) == parse_spec(first),
{
    broadcast use vstd::seq_lib::group_to_multiset_ensures;

    let a = tokens(upper(first));
    let b = tokens(upper(second));
    assert forall|m: Modifier| names(a, m) == names(b, m) by {
        if names(a, m) {
            let i = choose|i: int| 0 <= i < a.len() && modifier_alias(#[trigger] a[i]) == Some(m);
            assert(a.contains(a[i]));
            assert(b.to_multiset().count(a[i]) > 0);
            assert(b.contains(a[i]));
            let j = choose|j: int| 0 <= j < b.len() && b[j] == a[i];
            assert(modifier_alias(b[j]) == Some(m));
        }
        if names(b, m) {
            let i = choose|i: int| 0 <= i < b.len() && modifier_alias(#[trigger] b[i]) == Some(m);
            assert(b.contains(b[i]));
            assert(a.to_multiset().count(b[i]) > 0);
            assert(a.contains(b[i]));
            let j = choose|j: int| 0 <= j < a.len() && a[j] == b[i];
            assert(modifier_alias(a[j]) == Some(m));
        }
    }
    let kept_a = others(a);
    let kept_b = others(b);
    assert(kept_a.to_multiset() =~= kept_b.to_multiset()) by {
        assert forall|t: Seq<char>|
            kept_a.to_multiset().count(t) == kept_b.to_multiset().count(t) by {
            lemma_others_count(a, t);
            lemma_others_count(b, t);
        }
    }
    assert(kept_a.len() == 1);
    assert(kept_b.len() == kept_b.to_multiset().len());
    assert(kept_a.len() == kept_a.to_multiset().len());
    assert(kept_b.len() == 1);
    assert(kept_b.contains(kept_b[0]));
    assert(kept_a.to_multiset().count(kept_b[0]) > 0);
    assert(kept_a.contains(kept_b[0]));
    assert(kept_a[0] == kept_b[0]);
    assert(kept_a =~= kept_b);
    lemma_parse_ignores_modifier_order(first, second);
}

} // verus!
