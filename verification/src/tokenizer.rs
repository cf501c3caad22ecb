//! The argument tokenizer: a single left-to-right pass over the raw argument
//! list with one token of lookahead, classifying every token into short
//! flags, long flags, positionals, or malformed tokens.
//!
//! The pass is modelled by a small state machine over the sequence of token
//! views: [`step`] processes one position, [`run`] folds it over a prefix,
//! and [`tokenized`] is the state after the whole list. [`tokenize`] is the
//! executable pass, proved to return exactly that state.

use vstd::prelude::*;
use vstd::hash_map::StringHashMap;
use crate::style::Color;

verus! {

/// A token starts with a dash. An empty token does not.
pub open spec fn starts_with_dash(t: Seq<char>) -> bool {
    t.len() >= 1 && t[0] == '-'
}

/// An ASCII alphabetic character.
pub open spec fn is_ascii_alpha(c: char) -> bool {
    ('a' as u32) <= (c as u32) <= ('z' as u32) || ('A' as u32) <= (c as u32) <= ('Z' as u32)
}

/// An ASCII decimal digit.
pub open spec fn is_ascii_digit(c: char) -> bool {
    ('0' as u32) <= (c as u32) <= ('9' as u32)
}

/// A character allowed inside a long-flag name.
pub open spec fn is_alnum_or_hyphen(c: char) -> bool {
    is_ascii_alpha(c) || is_ascii_digit(c) || c == '-'
}

/// Two adjacent hyphens occur somewhere in the name.
pub open spec fn has_double_hyphen(name: Seq<char>) -> bool {
    exists|j: int| 0 <= j && j + 1 < name.len() && #[trigger] name[j] == '-' && name[j + 1] == '-'
}

/// A valid long-flag name: only ASCII alphanumerics and hyphens, neither
/// starting nor ending with a hyphen, and without two adjacent hyphens.
pub open spec fn valid_long_name(name: Seq<char>) -> bool {
    &&& forall|j: int| 0 <= j < name.len() ==> is_alnum_or_hyphen(#[trigger] name[j])
    &&& (name.len() > 0 ==> name[0] != '-')
    &&& (name.len() > 0 ==> name[name.len() - 1] != '-')
    &&& !has_double_hyphen(name)
}

/// The name of a long-form token: everything after the leading `--`.
pub open spec fn long_token_name(t: Seq<char>) -> Seq<char> {
    t.subrange(2, t.len() as int)
}

/// The name of a short-form token: everything after the leading `-`.
pub open spec fn short_token_name(t: Seq<char>) -> Seq<char> {
    t.subrange(1, t.len() as int)
}

/// A long-form token with a valid name.
pub open spec fn is_long_flag_token(t: Seq<char>) -> bool {
    t.len() >= 3 && t[0] == '-' && t[1] == '-' && valid_long_name(long_token_name(t))
}

/// The bare `--` token, the only malformed form.
pub open spec fn is_bare_double_dash(t: Seq<char>) -> bool {
    t.len() == 2 && t[0] == '-' && t[1] == '-'
}

/// A short-form token whose name is entirely ASCII alphabetic.
pub open spec fn is_short_flag_token(t: Seq<char>) -> bool {
    &&& t.len() >= 2
    &&& t[0] == '-'
    &&& t[1] != '-'
    &&& forall|j: int| 1 <= j < t.len() ==> is_ascii_alpha(#[trigger] t[j])
}

/// A single-letter short flag, the only short form that may take a value.
pub open spec fn is_short_single(t: Seq<char>) -> bool {
    is_short_flag_token(t) && t.len() == 2
}

/// A bundle of short flags, such as `-abc`; it never takes a value.
pub open spec fn is_short_bundle(t: Seq<char>) -> bool {
    is_short_flag_token(t) && t.len() > 2
}

/// The flag token at position `i`, when not itself consumed, takes the next
/// token as its value: it is a valid long flag or a single-letter short flag,
/// a next token exists, and that token does not start with a dash.
pub open spec fn flag_takes_value(args: Seq<Seq<char>>, i: int) -> bool {
    &&& 0 <= i
    &&& i + 1 < args.len()
    &&& is_long_flag_token(args[i]) || is_short_single(args[i])
    &&& !starts_with_dash(args[i + 1])
}

/// Position `i` is consumed as the value of the flag at position `i - 1`.
pub open spec fn is_consumed_value(args: Seq<Seq<char>>, i: int) -> bool
    decreases i,
{
    if i <= 0 {
        false
    } else {
        !is_consumed_value(args, i - 1) && flag_takes_value(args, i - 1)
    }
}

/// Position `i` contributes to the short-flag map.
pub open spec fn contributes_short(args: Seq<Seq<char>>, i: int) -> bool {
    !is_consumed_value(args, i) && is_short_flag_token(args[i])
}

/// Position `i` contributes to the long-flag map.
pub open spec fn contributes_long(args: Seq<Seq<char>>, i: int) -> bool {
    !is_consumed_value(args, i) && !is_short_flag_token(args[i]) && is_long_flag_token(args[i])
}

/// Position `i` is recorded as malformed (the bare `--` token).
pub open spec fn malformed_at(args: Seq<Seq<char>>, i: int) -> bool {
    !is_consumed_value(args, i) && !is_short_flag_token(args[i]) && !is_long_flag_token(args[i])
        && is_bare_double_dash(args[i])
}

/// Position `i` is recorded as a positional argument.
pub open spec fn positional_at(args: Seq<Seq<char>>, i: int) -> bool {
    !is_consumed_value(args, i) && !is_short_flag_token(args[i]) && !is_long_flag_token(args[i])
        && !is_bare_double_dash(args[i])
}

/// The tokenizer's accumulated state after some prefix of the argument list.
/// Flag values use the `"true"` sentinel for boolean-only flags. Positionals
/// and malformed entries carry 1-based original positions.
pub struct TokState {
    pub shorts: Map<Seq<char>, Seq<char>>,
    pub longs: Map<Seq<char>, Seq<char>>,
    pub positionals: Seq<(Seq<char>, int)>,
    pub malformed: Seq<int>,
    pub skip: bool,
}

/// The state before any token is processed.
pub open spec fn init_state() -> TokState {
    TokState {
        shorts: Map::empty(),
        longs: Map::empty(),
        positionals: Seq::empty(),
        malformed: Seq::empty(),
        skip: false,
    }
}

/// Each letter of a bundle, in order, mapped to the `"true"` sentinel:
/// the letters of `t` at positions `1 .. j`.
pub open spec fn bundle_inserts(m: Map<Seq<char>, Seq<char>>, t: Seq<char>, j: int) -> Map<
    Seq<char>,
    Seq<char>,
>
    decreases j,
{
    if j <= 1 {
        m
    } else {
        bundle_inserts(m, t, j - 1).insert(seq![t[j - 1]], "true"@)
    }
}

/// One step of the pass: how the state changes at position `i`.
pub open spec fn step(st: TokState, args: Seq<Seq<char>>, i: int) -> TokState {
    let t = args[i];
    if st.skip {
        TokState { skip: false, ..st }
    } else if is_short_bundle(t) {
        TokState { shorts: bundle_inserts(st.shorts, t, t.len() as int), ..st }
    } else if is_short_single(t) {
        if flag_takes_value(args, i) {
            TokState { shorts: st.shorts.insert(seq![t[1]], args[i + 1]), skip: true, ..st }
        } else {
            TokState { shorts: st.shorts.insert(seq![t[1]], "true"@), ..st }
        }
    } else if is_long_flag_token(t) {
        if flag_takes_value(args, i) {
            TokState { longs: st.longs.insert(long_token_name(t), args[i + 1]), skip: true, ..st }
        } else {
            TokState { longs: st.longs.insert(long_token_name(t), "true"@), ..st }
        }
    } else if is_bare_double_dash(t) {
        TokState { malformed: st.malformed.push(i + 1), ..st }
    } else {
        TokState { positionals: st.positionals.push((t, i + 1)), ..st }
    }
}

/// The state after the first `n` tokens.
pub open spec fn run(args: Seq<Seq<char>>, n: int) -> TokState
    decreases n,
{
    if n <= 0 {
        init_state()
    } else {
        step(run(args, n - 1), args, n - 1)
    }
}

/// The state after the whole argument list.
pub open spec fn tokenized(args: Seq<Seq<char>>) -> TokState {
    run(args, args.len() as int)
}

/// The skip flag after `n` tokens says exactly that position `n` is consumed
/// as the value of the flag before it.
pub proof fn lemma_run_skip(args: Seq<Seq<char>>, n: int)
    ensures
        run(args, n).skip == is_consumed_value(args, n),
    decreases n,
{
    if n > 0 {
        lemma_run_skip(args, n - 1);
    }
}

fn char_is_ascii_alpha(c: char) -> (r: bool)
    ensures
        r == is_ascii_alpha(c),
{
    let u = c as u32;
    (97 <= u && u <= 122) || (65 <= u && u <= 90)
}

fn char_is_alnum_or_hyphen(c: char) -> (r: bool)
    ensures
        r == is_alnum_or_hyphen(c),
{
    let u = c as u32;
    char_is_ascii_alpha(c) || (48 <= u && u <= 57) || u == 45
}

/// Whether a token begins with a dash; an empty token does not.
fn token_starts_with_dash(t: &str) -> (r: bool)
    ensures
        r == starts_with_dash(t@),
{
    let n = t.unicode_len();
    n >= 1 && t.get_char(0) == '-'
}

/// Whether `name` is a valid long-flag name.
fn long_name_valid(name: &str) -> (r: bool)
    ensures
        r == valid_long_name(name@),
{
    let n = name.unicode_len();
    let mut j: usize = 0;
    while j < n
        invariant
            n == name@.len(),
            j <= n,
            forall|k: int| 0 <= k < j ==> is_alnum_or_hyphen(#[trigger] name@[k]),
            forall|k: int|
                0 <= k && k + 1 < n && k < j ==> !(#[trigger] name@[k] == '-' && name@[k + 1]
                    == '-'),
        decreases n - j,
    {
        let ch = name.get_char(j);
        if !char_is_alnum_or_hyphen(ch) {
            return false;
        }
        if j + 1 < n && ch == '-' && name.get_char(j + 1) == '-' {
            return false;
        }
        j += 1;
    }
    if n > 0 {
        if name.get_char(0) == '-' {
            return false;
        }
        if name.get_char(n - 1) == '-' {
            return false;
        }
    }
    assert(!has_double_hyphen(name@));
    true
}

/// Whether `name` consists only of ASCII alphabetic characters.
fn name_all_alpha(name: &str) -> (r: bool)
    ensures
        r == (forall|k: int| 0 <= k < name@.len() ==> is_ascii_alpha(#[trigger] name@[k])),
{
    let n = name.unicode_len();
    let mut j: usize = 0;
    while j < n
        invariant
            n == name@.len(),
            j <= n,
            forall|k: int| 0 <= k < j ==> is_ascii_alpha(#[trigger] name@[k]),
        decreases n - j,
    {
        if !char_is_ascii_alpha(name.get_char(j)) {
            return false;
        }
        j += 1;
    }
    true
}

/// A map from flag names to flag values, seen at the level of character
/// sequences.
pub open spec fn string_map_view(m: Map<Seq<char>, String>) -> Map<Seq<char>, Seq<char>> {
    m.map_values(|v: String| v@)
}

proof fn lemma_string_map_view_empty()
    ensures
        string_map_view(Map::<Seq<char>, String>::empty()) == Map::<Seq<char>, Seq<char>>::empty(),
{
    assert(string_map_view(Map::<Seq<char>, String>::empty()) =~= Map::<
        Seq<char>,
        Seq<char>,
    >::empty());
}

proof fn lemma_string_map_view_insert(m: Map<Seq<char>, String>, k: Seq<char>, v: String)
    ensures
        string_map_view(m.insert(k, v)) == string_map_view(m).insert(k, v@),
{
    assert(string_map_view(m.insert(k, v)) =~= string_map_view(m).insert(k, v@));
}

/// The tokenizer's output, immutable once produced.
///
/// `s` maps single-letter short-flag names and `c` maps long-flag names to
/// their values, with the string `"true"` standing in for boolean-only flags.
/// `o` lists positional tokens with their 1-based original positions, `e`
/// the 1-based positions of malformed tokens, both in order of appearance.
/// `p` is the piped standard-input text, if any; `no_args` is true exactly
/// when there were no raw arguments and no piped input; `argc` counts the
/// raw arguments. `color` is a fresh style builder for the caller's output.
pub struct CLI {
    pub s: StringHashMap<String>,
    pub c: StringHashMap<String>,
    pub o: Vec<(String, usize)>,
    pub p: Option<String>,
    pub e: Vec<usize>,
    pub no_args: bool,
    pub argc: usize,
    pub color: Color,
}

/// Tokenizes the raw argument list in one left-to-right pass with one token
/// of lookahead. Never fails: every input produces a complete [`CLI`] whose
/// fields are exactly the [`tokenized`] state of the argument views.
pub fn tokenize(args: Vec<String>, piped: Option<String>) -> (r: CLI)
    ensures
        string_map_view(r.s@) == tokenized(args.deep_view()).shorts,
        string_map_view(r.c@) == tokenized(args.deep_view()).longs,
        r.o@.len() == tokenized(args.deep_view()).positionals.len(),
        forall|j: int|
            0 <= j < r.o@.len() ==> (#[trigger] r.o@[j]).0@ == tokenized(
                args.deep_view(),
            ).positionals[j].0 && r.o@[j].1 as int == tokenized(args.deep_view()).positionals[j].1,
        r.e@.len() == tokenized(args.deep_view()).malformed.len(),
        forall|j: int|
            0 <= j < r.e@.len() ==> #[trigger] r.e@[j] as int == tokenized(
                args.deep_view(),
            ).malformed[j],
        r.p == piped,
        r.no_args == (piped is None && args@.len() == 0),
        r.argc == args@.len(),
        r.color@ == Seq::<Seq<char>>::empty(),
{
    let ghost gargs = args.deep_view();
    let argc = args.len();
    let mut s: StringHashMap<String> = StringHashMap::new();
    let mut c: StringHashMap<String> = StringHashMap::new();
    let mut o: Vec<(String, usize)> = Vec::new();
    let mut e: Vec<usize> = Vec::new();
    let mut skip: bool = false;
    proof {
        lemma_string_map_view_empty();
    }
    let mut i: usize = 0;
    while i < argc
        invariant
            argc == args@.len(),
            gargs == args.deep_view(),
            gargs.len() == argc,
            i <= argc,
            string_map_view(s@) == run(gargs, i as int).shorts,
            string_map_view(c@) == run(gargs, i as int).longs,
            o@.len() == run(gargs, i as int).positionals.len(),
            forall|j: int|
                0 <= j < o@.len() ==> (#[trigger] o@[j]).0@ == run(gargs, i as int).positionals[j].0
                    && o@[j].1 as int == run(gargs, i as int).positionals[j].1,
            e@.len() == run(gargs, i as int).malformed.len(),
            forall|j: int|
                0 <= j < e@.len() ==> #[trigger] e@[j] as int == run(gargs, i as int).malformed[j],
            skip == run(gargs, i as int).skip,
        decreases argc - i,
    {
        let ghost pre = run(gargs, i as int);
        proof {
            lemma_run_skip(gargs, i as int);
        }
        assert(run(gargs, i + 1 as int) == step(pre, gargs, i as int));
        if skip {
            skip = false;
        } else {
            let t: &str = args[i].as_str();
            assert(t@ == gargs[i as int]);
            let ghost gt = gargs[i as int];
            let tlen = t.unicode_len();
            if tlen >= 2 && t.get_char(0) == '-' {
                if t.get_char(1) == '-' {
                    if tlen >= 3 {
                        let name = t.substring_char(2, tlen);
                        assert(name@ == long_token_name(gt));
                        if long_name_valid(name) {
                            assert(is_long_flag_token(gt));
                            assert(!is_short_flag_token(gt));
                            let mut take_next = false;
                            if i + 1 < argc {
                                if !token_starts_with_dash(args[i + 1].as_str()) {
                                    take_next = true;
                                }
                            }
                            assert(take_next == flag_takes_value(gargs, i as int));
                            if take_next {
                                let value = String::from_str(args[i + 1].as_str());
                                proof {
                                    lemma_string_map_view_insert(c@, name@, value);
                                }
                                c.insert(String::from_str(name), value);
                                skip = true;
                            } else {
                                let value = String::from_str("true");
                                proof {
                                    lemma_string_map_view_insert(c@, name@, value);
                                }
                                c.insert(String::from_str(name), value);
                            }
                        } else {
                            assert(positional_at(gargs, i as int));
                            o.push((String::from_str(t), i + 1));
                        }
                    } else {
                        assert(is_bare_double_dash(gt));
                        e.push(i + 1);
                    }
                } else {
                    let name = t.substring_char(1, tlen);
                    assert(name@ == short_token_name(gt));
                    if name_all_alpha(name) {
                        assert(is_short_flag_token(gt)) by {
                            assert(forall|j: int|
                                1 <= j < gt.len() ==> #[trigger] gt[j] == name@[j - 1]);
                        }
                        if tlen > 2 {
                            assert(is_short_bundle(gt));
                            let mut j: usize = 1;
                            while j < tlen
                                invariant
                                    gt == gargs[i as int],
                                    gt.len() == tlen,
                                    tlen > 2,
                                    i < argc == gargs.len(),
                                    t@ == gt,
                                    1 <= j <= tlen,
                                    string_map_view(s@) == bundle_inserts(
                                        pre.shorts,
                                        gt,
                                        j as int,
                                    ),
                                decreases tlen - j,
                            {
                                let key = t.substring_char(j, j + 1);
                                assert(key@ =~= seq![gt[j as int]]);
                                let value = String::from_str("true");
                                proof {
                                    lemma_string_map_view_insert(s@, key@, value);
                                }
                                s.insert(String::from_str(key), value);
                                j += 1;
                            }
                            assert(string_map_view(s@) == step(pre, gargs, i as int).shorts);
                        } else {
                            assert(is_short_single(gt));
                            assert(name@ =~= seq![gt[1]]);
                            let mut take_next = false;
                            if i + 1 < argc {
                                if !token_starts_with_dash(args[i + 1].as_str()) {
                                    take_next = true;
                                }
                            }
                            assert(take_next == flag_takes_value(gargs, i as int));
                            if take_next {
                                let value = String::from_str(args[i + 1].as_str());
                                proof {
                                    lemma_string_map_view_insert(s@, name@, value);
                                }
                                s.insert(String::from_str(name), value);
                                skip = true;
                            } else {
                                let value = String::from_str("true");
                                proof {
                                    lemma_string_map_view_insert(s@, name@, value);
                                }
                                s.insert(String::from_str(name), value);
                            }
                        }
                    } else {
                        assert(positional_at(gargs, i as int));
                        o.push((String::from_str(t), i + 1));
                    }
                }
            } else {
                assert(positional_at(gargs, i as int));
                o.push((String::from_str(t), i + 1));
            }
        }
        i += 1;
    }
    let no_args = piped.is_none() && argc == 0;
    CLI { s, c, o, p: piped, e, no_args, argc, color: Color::new() }
}

/// The lines joined with single newline separators, in order.
pub open spec fn joined_lines(lines: Seq<Seq<char>>) -> Seq<char>
    decreases lines.len(),
{
    if lines.len() == 0 {
        Seq::empty()
    } else if lines.len() == 1 {
        lines[0]
    } else {
        joined_lines(lines.drop_last()) + seq!['\n'] + lines.last()
    }
}

/// Turns the lines read from standard input into the piped-input value:
/// absent when no lines were read, otherwise all lines joined with newlines.
pub fn join_piped_lines(lines: &Vec<String>) -> (r: Option<String>)
    ensures
        r is None <==> lines@.len() == 0,
        r is Some ==> r->0@ == joined_lines(lines.deep_view()),
{
    let ghost glines = lines.deep_view();
    if lines.len() == 0 {
        return None;
    }
    let mut out = String::from_str(lines[0].as_str());
    assert(out@ == joined_lines(glines.take(1)));
    let mut i: usize = 1;
    while i < lines.len()
        invariant
            glines == lines.deep_view(),
            glines.len() == lines@.len(),
            1 <= i <= lines@.len(),
            out@ == joined_lines(glines.take(i as int)),
        decreases lines@.len() - i,
    {
        out.append("\n");
        out.append(lines[i].as_str());
        proof {
            reveal_strlit("\n");
            let prefix = glines.take(i + 1 as int);
            assert(prefix.drop_last() =~= glines.take(i as int));
            assert(prefix.last() == glines[i as int]);
            assert("\n"@ =~= seq!['\n']);
        }
        i += 1;
    }
    assert(glines.take(lines@.len() as int) =~= glines);
    Some(out)
}

/// Every raw-argument position is classified in exactly one way: consumed as
/// a flag's value, contributing to the short-flag map, contributing to the
/// long-flag map, positional, or malformed. Positions are partitioned —
/// never duplicated, never dropped.
pub proof fn lemma_position_classified_once(args: Seq<Seq<char>>, i: int)
    requires
        0 <= i < args.len(),
    ensures
        is_consumed_value(args, i) || contributes_short(args, i) || contributes_long(args, i)
            || positional_at(args, i) || malformed_at(args, i),
        is_consumed_value(args, i) ==> !contributes_short(args, i) && !contributes_long(args, i)
            && !positional_at(args, i) && !malformed_at(args, i),
        contributes_short(args, i) ==> !contributes_long(args, i) && !positional_at(args, i)
            && !malformed_at(args, i),
        contributes_long(args, i) ==> !positional_at(args, i) && !malformed_at(args, i),
        positional_at(args, i) ==> !malformed_at(args, i),
{
}

/// The 1-based positions of the malformed tokens among the first `n`, in
/// order of appearance.
pub open spec fn malformed_positions(args: Seq<Seq<char>>, n: int) -> Seq<int>
    decreases n,
{
    if n <= 0 {
        Seq::empty()
    } else if malformed_at(args, n - 1) {
        malformed_positions(args, n - 1).push(n)
    } else {
        malformed_positions(args, n - 1)
    }
}

/// The positional tokens among the first `n` with their 1-based positions,
/// in order of appearance.
pub open spec fn positional_entries(args: Seq<Seq<char>>, n: int) -> Seq<(Seq<char>, int)>
    decreases n,
{
    if n <= 0 {
        Seq::empty()
    } else if positional_at(args, n - 1) {
        positional_entries(args, n - 1).push((args[n - 1], n))
    } else {
        positional_entries(args, n - 1)
    }
}

proof fn lemma_run_records(args: Seq<Seq<char>>, n: int)
    ensures
        run(args, n).malformed == malformed_positions(args, n),
        run(args, n).positionals == positional_entries(args, n),
    decreases n,
{
    if n > 0 {
        lemma_run_records(args, n - 1);
        lemma_run_skip(args, n - 1);
    }
}

/// The tokenized state records as malformed exactly the positions of the
/// malformed tokens, and as positionals exactly the positional tokens with
/// their positions, each in order of appearance.
pub proof fn lemma_tokenized_records(args: Seq<Seq<char>>)
    ensures
        tokenized(args).malformed == malformed_positions(args, args.len() as int),
        tokenized(args).positionals == positional_entries(args, args.len() as int),
{
    lemma_run_records(args, args.len() as int);
}

proof fn lemma_bundle_inserts_keys(m: Map<Seq<char>, Seq<char>>, t: Seq<char>, j: int)
    ensures
        forall|k: int| 1 <= k < j ==> bundle_inserts(m, t, j).contains_key(#[trigger] seq![t[k]]),
        forall|key: Seq<char>|
            m.contains_key(key) ==> bundle_inserts(m, t, j).contains_key(key),
    decreases j,
{
    if j > 1 {
        lemma_bundle_inserts_keys(m, t, j - 1);
    }
}

proof fn lemma_step_preserves_keys(st: TokState, args: Seq<Seq<char>>, idx: int)
    ensures
        forall|key: Seq<char>|
            st.shorts.contains_key(key) ==> step(st, args, idx).shorts.contains_key(key),
        forall|key: Seq<char>|
            st.longs.contains_key(key) ==> step(st, args, idx).longs.contains_key(key),
{
    if !st.skip && is_short_bundle(args[idx]) {
        lemma_bundle_inserts_keys(st.shorts, args[idx], args[idx].len() as int);
    }
}

proof fn lemma_run_contains_short_key(args: Seq<Seq<char>>, i: int, j: int, n: int)
    requires
        0 <= i < n,
        contributes_short(args, i),
        1 <= j < args[i].len(),
    ensures
        run(args, n).shorts.contains_key(seq![args[i][j]]),
    decreases n,
{
    if n - 1 == i {
        lemma_run_skip(args, i);
        if is_short_bundle(args[i]) {
            lemma_bundle_inserts_keys(run(args, i).shorts, args[i], args[i].len() as int);
        }
    } else {
        lemma_run_contains_short_key(args, i, j, n - 1);
        lemma_step_preserves_keys(run(args, n - 1), args, n - 1);
    }
}

/// A short-flag token leaves each of its letters as a key of the short-flag
/// map: the position is consumed as a short-flag contribution.
pub proof fn lemma_short_flag_recorded(args: Seq<Seq<char>>, i: int, j: int)
    requires
        0 <= i < args.len(),
        contributes_short(args, i),
        1 <= j < args[i].len(),
    ensures
        tokenized(args).shorts.contains_key(seq![args[i][j]]),
{
    lemma_run_contains_short_key(args, i, j, args.len() as int);
}

proof fn lemma_run_contains_long_key(args: Seq<Seq<char>>, i: int, n: int)
    requires
        0 <= i < n,
        contributes_long(args, i),
    ensures
        run(args, n).longs.contains_key(long_token_name(args[i])),
    decreases n,
{
    if n - 1 == i {
        lemma_run_skip(args, i);
    } else {
        lemma_run_contains_long_key(args, i, n - 1);
        lemma_step_preserves_keys(run(args, n - 1), args, n - 1);
    }
}

/// A valid long-flag token leaves its name as a key of the long-flag map:
/// the position is consumed as a long-flag contribution.
pub proof fn lemma_long_flag_recorded(args: Seq<Seq<char>>, i: int)
    requires
        0 <= i < args.len(),
        contributes_long(args, i),
    ensures
        tokenized(args).longs.contains_key(long_token_name(args[i])),
{
    lemma_run_contains_long_key(args, i, args.len() as int);
}

} // verus!
