//! The text form of a bag, and how it is read back.
//!
//! A coin is written as its amount in decimal digits directly followed by its
//! denomination, as in `9500x`. A bag is written as its coins in the order of
//! their denominations with one space between two coins; the empty bag is the
//! empty text. Reading accepts the coins in any order and leading zeros in an
//! amount, and passes over a coin whose amount is zero.

use vstd::prelude::*;
use vstd::string::StringExecFns;
use crate::bag::{bag_wf, Bag};
use crate::decimal::{
    decimal_value, digit_run, is_digit, is_digit_char, lemma_digit_run, lemma_render_amount,
    push_amount, read_amount, render_amount,
};
use crate::denom::{no_separator, valid_denom, SEPARATOR};
use crate::strings::collect_chars;
use crate::listing::{
    coin_views, gather, holds, lemma_gather_listing, lemma_listing_exists, listing_of,
    CoinEntry, CoinView,
};

verus! {

/// One coin as text: the amount, then the denomination.
pub open spec fn render_coin(c: CoinView) -> Seq<char> {
    render_amount(c.amount) + c.denom
}

/// The coin that the token `t` stands for: its leading digits are the
/// amount, which fits into 128 bits, and the rest is a valid denomination.
pub open spec fn parse_coin(t: Seq<char>) -> Option<CoinView> {
    let k = digit_run(t) as int;
    if k == 0 || k == t.len() {
        None
    } else if decimal_value(t.take(k)) > u128::MAX || !valid_denom(t.skip(k)) {
        None
    } else {
        Some(CoinView { denom: t.skip(k), amount: decimal_value(t.take(k)) })
    }
}

/// The tokens `ts` in one text, a space between two of them.
pub open spec fn join_tokens(ts: Seq<Seq<char>>) -> Seq<char>
    decreases ts.len(),
{
    if ts.len() == 0 {
        Seq::empty()
    } else if ts.len() == 1 {
        ts[0]
    } else {
        join_tokens(ts.drop_last()).push(SEPARATOR) + ts.last()
    }
}

/// The coins of `l`, each as text.
pub open spec fn coin_tokens(l: Seq<CoinView>) -> Seq<Seq<char>> {
    l.map_values(|c: CoinView| render_coin(c))
}

/// The coins of `l` as text, one space between two of them.
pub open spec fn render_listing(l: Seq<CoinView>) -> Seq<char> {
    join_tokens(coin_tokens(l))
}

/// The tokens of `s`: what stands before, between and behind its spaces.
/// A text without a space is one token, the empty text too.
pub open spec fn split_tokens(s: Seq<char>) -> Seq<Seq<char>>
    decreases s.len(),
{
    if s.len() == 0 {
        seq![Seq::empty()]
    } else {
        let head = split_tokens(s.drop_last());
        if s.last() == SEPARATOR {
            head.push(Seq::empty())
        } else {
            head.drop_last().push(head.last().push(s.last()))
        }
    }
}

/// The coins that the tokens `ts` stand for, if each of them is a coin.
pub open spec fn parse_tokens(ts: Seq<Seq<char>>) -> Option<Seq<CoinView>>
    decreases ts.len(),
{
    if ts.len() == 0 {
        Some(Seq::empty())
    } else {
        match (parse_tokens(ts.drop_last()), parse_coin(ts.last())) {
            (Some(l), Some(c)) => Some(l.push(c)),
            _ => None,
        }
    }
}

/// The coins that the text `s` stands for, in the order in which it names
/// them.
pub open spec fn parse_coins(s: Seq<char>) -> Option<Seq<CoinView>> {
    if s.len() == 0 {
        Some(Seq::empty())
    } else {
        parse_tokens(split_tokens(s))
    }
}

/// The text form of the bag `b`.
pub open spec fn bag_text(b: Bag) -> Seq<char> {
    render_listing(listing_of(b))
}

/// The bag that the text `s` stands for, if it stands for one: each of its
/// tokens is a coin and no two coins with a positive amount share a
/// denomination.
pub open spec fn parse_text(s: Seq<char>) -> Option<Bag> {
    match parse_coins(s) {
        Some(l) => gather(l),
        None => None,
    }
}

/// Whether each coin of `l` can be written and read back.
pub open spec fn writable(l: Seq<CoinView>) -> bool {
    forall|i: int|
        0 <= i < l.len() ==> valid_denom((#[trigger] l[i]).denom) && l[i].amount <= u128::MAX
}

/// A written coin is read back as the same coin.
pub proof fn lemma_parse_render_coin(c: CoinView)
    requires
        valid_denom(c.denom),
        c.amount <= u128::MAX,
    ensures
        parse_coin(render_coin(c)) == Some(c),
        no_separator(render_coin(c)),
        render_coin(c).len() > 0,
{
    let digits = render_amount(c.amount);
    let t = render_coin(c);
    lemma_render_amount(c.amount);
    assert forall|i: int| 0 <= i < digits.len() implies is_digit(#[trigger] t[i]) by {
        assert(t[i] == digits[i]);
    }
    assert(t[digits.len() as int] == c.denom[0]);
    lemma_digit_run(t, digits.len() as int);
    assert(t.take(digits.len() as int) =~= digits);
    assert(t.skip(digits.len() as int) =~= c.denom);
    assert forall|i: int| 0 <= i < t.len() implies t[i] != SEPARATOR by {
        if i < digits.len() {
            assert(is_digit(t[i]));
        } else {
            assert(t[i] == c.denom[i - digits.len()]);
        }
    }
}

/// A text without a space is a single token.
pub proof fn lemma_split_plain(t: Seq<char>)
    requires
        no_separator(t),
    ensures
        split_tokens(t) == seq![t],
    decreases t.len(),
{
    if t.len() == 0 {
        assert(t =~= Seq::<char>::empty());
    } else {
        lemma_split_plain(t.drop_last());
        assert(split_tokens(t) =~= seq![t.drop_last().push(t.last())]);
        assert(t.drop_last().push(t.last()) =~= t);
    }
}

/// A space and a text without a space add one token.
pub proof fn lemma_split_push(a: Seq<char>, t: Seq<char>)
    requires
        no_separator(t),
    ensures
        split_tokens(a.push(SEPARATOR) + t) == split_tokens(a).push(t),
    decreases t.len(),
{
    let s = a.push(SEPARATOR) + t;
    if t.len() == 0 {
        assert(s.drop_last() =~= a);
        assert(t =~= Seq::<char>::empty());
    } else {
        lemma_split_push(a, t.drop_last());
        assert(s.drop_last() =~= a.push(SEPARATOR) + t.drop_last());
        assert(t.drop_last().push(t.last()) =~= t);
        assert(split_tokens(s) =~= split_tokens(a).push(t));
    }
}

/// Joining tokens that hold no space and splitting the text again gives
/// the tokens back.
pub proof fn lemma_split_join(ts: Seq<Seq<char>>)
    requires
        ts.len() > 0,
        forall|i: int| 0 <= i < ts.len() ==> no_separator(#[trigger] ts[i]),
    ensures
        split_tokens(join_tokens(ts)) == ts,
    decreases ts.len(),
{
    if ts.len() == 1 {
        lemma_split_plain(ts[0]);
        assert(seq![ts[0]] =~= ts);
    } else {
        let front = ts.drop_last();
        assert forall|i: int| 0 <= i < front.len() implies no_separator(#[trigger] front[i]) by {
            assert(front[i] == ts[i]);
        }
        lemma_split_join(front);
        assert(no_separator(ts[ts.len() - 1]));
        lemma_split_push(join_tokens(front), ts.last());
        assert(front.push(ts.last()) =~= ts);
    }
}

/// Written coins are read back as the same coins.
pub proof fn lemma_parse_written_tokens(l: Seq<CoinView>)
    requires
        writable(l),
    ensures
        parse_tokens(coin_tokens(l)) == Some(l),
    decreases l.len(),
{
    if l.len() == 0 {
        assert(l =~= Seq::<CoinView>::empty());
    } else {
        let front = l.drop_last();
        assert(writable(front)) by {
            assert forall|i: int| 0 <= i < front.len() implies valid_denom(
                (#[trigger] front[i]).denom,
            ) && front[i].amount <= u128::MAX by {
                assert(front[i] == l[i]);
            }
        }
        lemma_parse_written_tokens(front);
        lemma_parse_render_coin(l.last());
        assert(coin_tokens(l).drop_last() =~= coin_tokens(front));
        assert(front.push(l.last()) =~= l);
    }
}

/// Reading what was written gives the coins back, in their order.
pub proof fn lemma_parse_render(l: Seq<CoinView>)
    requires
        writable(l),
    ensures
        parse_coins(render_listing(l)) == Some(l),
{
    if l.len() == 0 {
        assert(l =~= Seq::<CoinView>::empty());
    } else {
        let ts = coin_tokens(l);
        assert forall|i: int| 0 <= i < ts.len() implies no_separator(#[trigger] ts[i])
            && ts[i].len() > 0 by {
            lemma_parse_render_coin(l[i]);
        }
        lemma_split_join(ts);
        assert(join_tokens(ts).len() > 0) by {
            assert(ts.last().len() > 0);
        }
        lemma_parse_written_tokens(l);
    }
}

/// The text form of a valid bag is read back as the same bag.
pub proof fn lemma_text_round_trip(b: Bag)
    requires
        bag_wf(b),
    ensures
        parse_text(bag_text(b)) == Some(b),
{
    lemma_listing_exists(b);
    let l = listing_of(b);
    assert(writable(l)) by {
        assert forall|i: int| 0 <= i < l.len() implies valid_denom((#[trigger] l[i]).denom)
            && l[i].amount <= u128::MAX by {
            assert(holds(b, l[i]));
        }
    }
    lemma_parse_render(l);
    lemma_gather_listing(l, b);
}

/// Every coin that is read from a token can be written and read back.
pub proof fn lemma_parsed_tokens_writable(ts: Seq<Seq<char>>)
    requires
        parse_tokens(ts) is Some,
    ensures
        writable(parse_tokens(ts)->0),
        parse_tokens(ts)->0.len() == ts.len(),
    decreases ts.len(),
{
    if ts.len() > 0 {
        lemma_parsed_tokens_writable(ts.drop_last());
    }
}

/// If the first tokens do not all stand for coins, neither do all tokens.
pub proof fn lemma_parse_tokens_prefix(ts: Seq<Seq<char>>, k: int)
    requires
        0 <= k <= ts.len(),
        parse_tokens(ts.take(k)) is None,
    ensures
        parse_tokens(ts) is None,
    decreases ts.len() - k,
{
    if k < ts.len() {
        assert(ts.take(k + 1).drop_last() =~= ts.take(k));
        lemma_parse_tokens_prefix(ts, k + 1);
    } else {
        assert(ts.take(k) =~= ts);
    }
}

/// The texts that the tokens of `v` hold.
pub open spec fn token_views(v: Seq<Vec<char>>) -> Seq<Seq<char>> {
    v.map_values(|t: Vec<char>| t@)
}

/// Writes the coins of `entries` as text, one space between two of them.
pub fn render_entries(entries: &Vec<CoinEntry>) -> (out: String)
    ensures
        out@ == render_listing(coin_views(entries@)),
{
    let mut out = String::new();
    let ghost l = coin_views(entries@);
    let mut i: usize = 0;
    while i < entries.len()
        invariant
            i <= entries@.len(),
            l == coin_views(entries@),
            out@ == render_listing(l.take(i as int)),
        decreases entries@.len() - i,
    {
        let ghost before = out@;
        if i > 0 {
            out.push(SEPARATOR);
        }
        push_amount(&mut out, entries[i].amount);
        out.append(entries[i].denom.as_str());
        proof {
            let now = coin_tokens(l.take(i + 1));
            assert(now.drop_last() =~= coin_tokens(l.take(i as int)));
            assert(now.last() == render_coin(entries@[i as int]@));
            if i == 0 {
                assert(out@ =~= now[0]);
            } else {
                assert(out@ =~= before.push(SEPARATOR) + now.last());
            }
        }
        i += 1;
    }
    proof {
        assert(l.take(i as int) =~= l);
    }
    out
}

/// Splits `chars` at its spaces.
pub fn split_text(chars: &Vec<char>) -> (tokens: Vec<Vec<char>>)
    ensures
        token_views(tokens@) == split_tokens(chars@),
{
    let mut tokens: Vec<Vec<char>> = Vec::new();
    let mut current: Vec<char> = Vec::new();
    let mut i: usize = 0;
    while i < chars.len()
        invariant
            i <= chars@.len(),
            token_views(tokens@).push(current@) == split_tokens(chars@.take(i as int)),
        decreases chars@.len() - i,
    {
        let ghost head = split_tokens(chars@.take(i as int));
        let ghost done = token_views(tokens@);
        let ghost open = current@;
        let c = chars[i];
        proof {
            assert(chars@.take(i + 1).drop_last() =~= chars@.take(i as int));
            assert(chars@.take(i + 1).last() == c);
        }
        if c == SEPARATOR {
            tokens.push(current);
            current = Vec::new();
            proof {
                assert(token_views(tokens@) =~= head);
            }
        } else {
            current.push(c);
            proof {
                assert(head.drop_last() =~= done);
                assert(head.last() == open);
            }
        }
        i += 1;
    }
    proof {
        assert(chars@.take(i as int) =~= chars@);
        assert(token_views(tokens@.push(current)) =~= token_views(tokens@).push(current@));
    }
    tokens.push(current);
    tokens
}

/// Reads one coin from `token`.
pub fn read_coin(token: &Vec<char>) -> (r: Option<CoinEntry>)
    ensures
        match parse_coin(token@) {
            Some(c) => r matches Some(e) && e@ == c,
            None => r is None,
        },
{
    let n = token.len();
    let mut k: usize = 0;
    while k < n && is_digit_char(token[k])
        invariant
            k <= n == token@.len(),
            forall|i: int| 0 <= i < k ==> is_digit(#[trigger] token@[i]),
        decreases n - k,
    {
        k += 1;
    }
    proof {
        lemma_digit_run(token@, k as int);
    }
    if k == 0 || k == n {
        return None;
    }
    let amount = match read_amount(token, k) {
        Some(v) => v,
        None => {
            return None;
        },
    };
    let mut denom = String::new();
    let mut j: usize = k;
    while j < n
        invariant
            0 < k <= j <= n == token@.len(),
            digit_run(token@) == k,
            denom@ == token@.subrange(k as int, j as int),
            no_separator(denom@),
        decreases n - j,
    {
        let c = token[j];
        if c == SEPARATOR {
            proof {
                assert(token@.skip(k as int)[j - k] == SEPARATOR);
            }
            return None;
        }
        denom.push(c);
        proof {
            assert(denom@ =~= token@.subrange(k as int, j + 1));
        }
        j += 1;
    }
    proof {
        assert(denom@ =~= token@.skip(k as int));
    }
    Some(CoinEntry { denom, amount })
}

/// Reads the coins that the text `s` names, in its order.
pub fn read_coins(s: &str) -> (r: Option<Vec<CoinEntry>>)
    ensures
        match parse_coins(s@) {
            Some(l) => r matches Some(v) && coin_views(v@) == l,
            None => r is None,
        },
{
    let chars = collect_chars(s);
    let mut entries: Vec<CoinEntry> = Vec::new();
    if chars.len() == 0 {
        proof {
            assert(coin_views(entries@) =~= Seq::<CoinView>::empty());
        }
        return Some(entries);
    }
    let tokens = split_text(&chars);
    let ghost ts = split_tokens(s@);
    let mut i: usize = 0;
    while i < tokens.len()
        invariant
            i <= tokens@.len(),
            ts == token_views(tokens@),
            ts == split_tokens(s@),
            s@.len() > 0,
            parse_tokens(ts.take(i as int)) == Some(coin_views(entries@)),
        decreases tokens@.len() - i,
    {
        proof {
            assert(ts.take(i + 1).drop_last() =~= ts.take(i as int));
            assert(ts.take(i + 1).last() == tokens@[i as int]@);
        }
        match read_coin(&tokens[i]) {
            Some(e) => {
                proof {
                    assert(coin_views(entries@.push(e)) =~= coin_views(entries@).push(e@));
                }
                entries.push(e);
            },
            None => {
                proof {
                    lemma_parse_tokens_prefix(ts, i + 1);
                }
                return None;
            },
        }
        i += 1;
    }
    proof {
        assert(ts.take(i as int) =~= ts);
    }
    Some(entries)
}

} // verus!
