//! The player's command language: a line of text becomes an [`Action`], or a
//! message saying what is wrong with it.
//!
//! Words are separated by whitespace; the verb is matched without regard to
//! ASCII case. Commodities and systems are named by their content id, by that
//! id without the `core:` namespace, or by their display name in any ASCII
//! case.

use vstd::prelude::*;

use crate::ids::{CommodityId, SystemId};
use crate::registry::Registry;
use crate::Quantity;

verus! {

/// A parsed player action (not yet bound to a specific trader).
#[derive(Debug, Clone, Copy, PartialEq, Eq, Structural)]
pub enum Action {
    Buy(CommodityId, Quantity),
    Sell(CommodityId, Quantity),
    Jump(SystemId),
    Wait(u64),
    Status,
    /// List the systems and their jumps.
    ShowMap,
    Help,
    Quit,
}

// ---------------------------------------------------------------------------
// Characters and words
// ---------------------------------------------------------------------------

/// Whether `c` is white space: the Unicode `White_Space` characters, which is
/// what `char::is_whitespace` tests.
pub open spec fn is_space(c: char) -> bool {
    let u = c as u32;
    ||| 0x9 <= u <= 0xD
    ||| u == 0x20
    ||| u == 0x85
    ||| u == 0xA0
    ||| u == 0x1680
    ||| 0x2000 <= u <= 0x200A
    ||| u == 0x2028
    ||| u == 0x2029
    ||| u == 0x202F
    ||| u == 0x205F
    ||| u == 0x3000
}

fn space(c: char) -> (r: bool)
    ensures
        r == is_space(c),
{
    let u = c as u32;
    (0x9 <= u && u <= 0xD) || u == 0x20 || u == 0x85 || u == 0xA0 || u == 0x1680 || (0x2000 <= u && u <= 0x200A) || u
        == 0x2028 || u == 0x2029 || u == 0x202F || u == 0x205F || u == 0x3000
}

/// The words of `s` when `cur` is the word read so far: maximal runs of
/// characters that are not white space, in order.
pub open spec fn split_from(s: Seq<char>, cur: Seq<char>) -> Seq<Seq<char>>
    decreases s.len(),
{
    if s.len() == 0 {
        if cur.len() > 0 {
            seq![cur]
        } else {
            Seq::empty()
        }
    } else if is_space(s[0]) {
        (if cur.len() > 0 {
            seq![cur]
        } else {
            Seq::<Seq<char>>::empty()
        }) + split_from(s.drop_first(), Seq::empty())
    } else {
        split_from(s.drop_first(), cur.push(s[0]))
    }
}

/// The whitespace-separated words of `s`.
pub open spec fn words(s: Seq<char>) -> Seq<Seq<char>> {
    split_from(s, Seq::empty())
}

/// The views of a list of string slices.
pub open spec fn str_views(v: Seq<&str>) -> Seq<Seq<char>> {
    v.map_values(|w: &str| w@)
}

/// Split `line` into its whitespace-separated words.
fn split_words(line: &str) -> (r: Vec<&str>)
    ensures
        str_views(r@) == words(line@),
{
    let ghost s = line@;
    let n = line.unicode_len();
    let mut out: Vec<&str> = Vec::new();
    let mut start: usize = 0;
    let mut i: usize = 0;
    assert(s.subrange(0, n as int) =~= s);
    assert(s.subrange(0, 0) =~= Seq::<char>::empty());
    assert(str_views(out@) =~= Seq::<Seq<char>>::empty());
    while i < n
        invariant
            n == s.len(),
            s == line@,
            start <= i <= n,
            words(s) == str_views(out@) + split_from(s.subrange(i as int, n as int), s.subrange(start as int, i as int)),
        decreases n - i,
    {
        let c = line.get_char(i);
        let ghost rest = s.subrange(i as int, n as int);
        let ghost cur = s.subrange(start as int, i as int);
        assert(rest[0] == c);
        assert(rest.drop_first() =~= s.subrange(i + 1, n as int));
        if space(c) {
            let ghost before = str_views(out@);
            if start < i {
                let w = line.substring_char(start, i);
                out.push(w);
                assert(str_views(out@) =~= before.push(cur));
                assert(before + (seq![cur] + split_from(s.subrange(i + 1, n as int), Seq::empty())) =~= str_views(out@)
                    + split_from(s.subrange(i + 1, n as int), Seq::empty()));
            } else {
                assert(cur.len() == 0);
                assert(Seq::<Seq<char>>::empty() + split_from(s.subrange(i + 1, n as int), Seq::empty()) =~= split_from(
                    s.subrange(i + 1, n as int),
                    Seq::empty(),
                ));
            }
            i = i + 1;
            start = i;
            assert(s.subrange(start as int, i as int) =~= Seq::<char>::empty());
        } else {
            assert(cur.push(c) =~= s.subrange(start as int, i + 1));
            i = i + 1;
        }
    }
    assert(s.subrange(n as int, n as int) =~= Seq::<char>::empty());
    if start < n {
        let ghost before = str_views(out@);
        let w = line.substring_char(start, n);
        out.push(w);
        assert(str_views(out@) =~= before.push(s.subrange(start as int, n as int)));
    } else {
        assert(str_views(out@) + Seq::<Seq<char>>::empty() =~= str_views(out@));
    }
    out
}

/// `c` with an ASCII capital letter mapped to its lower case.
pub open spec fn lower_char(c: char) -> char {
    if 'A' <= c && c <= 'Z' {
        ((c as u32) + 32) as char
    } else {
        c
    }
}

/// `s` with its ASCII capital letters mapped to lower case.
pub open spec fn lower_seq(s: Seq<char>) -> Seq<char> {
    s.map_values(|c: char| lower_char(c))
}

/// `str::to_ascii_lowercase`: the std documentation says each character is
/// mapped to its ASCII lower case equivalent (`'A'..='Z'` to `'a'..='z'`) and
/// every other character is unchanged.
#[verifier::external_body]
fn to_ascii_lowercase(s: &str) -> (r: String)
    ensures
        r@ == lower_seq(s@),
{
    s.to_ascii_lowercase()
}

/// `a` and `b` are the same string when ASCII case is ignored.
pub open spec fn eq_ignore_case(a: Seq<char>, b: Seq<char>) -> bool {
    a.len() == b.len() && forall|i: int| 0 <= i < a.len() ==> lower_char(#[trigger] a[i]) == lower_char(b[i])
}

fn lower_code(c: char) -> (r: u32)
    ensures
        r == lower_char(c) as u32,
{
    let u = c as u32;
    if 65 <= u && u <= 90 {
        u + 32
    } else {
        u
    }
}

/// Whether `a` equals `b` ignoring ASCII case.
fn equal_ignoring_case(a: &str, b: &str) -> (r: bool)
    ensures
        r == eq_ignore_case(a@, b@),
{
    let n = a.unicode_len();
    if n != b.unicode_len() {
        return false;
    }
    let mut i: usize = 0;
    while i < n
        invariant
            n == a@.len(),
            n == b@.len(),
            i <= n,
            forall|j: int| 0 <= j < i ==> lower_char(#[trigger] a@[j]) == lower_char(b@[j]),
        decreases n - i,
    {
        if lower_code(a.get_char(i)) != lower_code(b.get_char(i)) {
            assert(lower_char(a@[i as int]) != lower_char(b@[i as int]));
            return false;
        }
        i = i + 1;
    }
    true
}

/// Whether `b` occurs in `a` starting at character `off`.
fn occurs_at(a: &str, off: usize, b: &str) -> (r: bool)
    requires
        off + b@.len() <= a@.len(),
    ensures
        r == (a@.subrange(off as int, off + b@.len()) == b@),
{
    let m = b.unicode_len();
    let al = a.unicode_len();
    let mut i: usize = 0;
    while i < m
        invariant
            m == b@.len(),
            al == a@.len(),
            off + m <= a@.len(),
            i <= m,
            forall|j: int| 0 <= j < i ==> a@[off + j] == #[trigger] b@[j],
        decreases m - i,
    {
        if a.get_char(off + i) != b.get_char(i) {
            assert(a@.subrange(off as int, off + m)[i as int] != b@[i as int]);
            return false;
        }
        i = i + 1;
    }
    assert(a@.subrange(off as int, off + m) =~= b@);
    true
}

/// Whether `a` and `b` are the same string.
fn same_str(a: &str, b: &str) -> (r: bool)
    ensures
        r == (a@ == b@),
{
    if a.unicode_len() != b.unicode_len() {
        return false;
    }
    let r = occurs_at(a, 0, b);
    assert(a@.subrange(0, a@.len() as int) =~= a@);
    r
}

/// `name` is `token` with the `core:` namespace in front.
fn is_core_name(name: &str, token: &str) -> (r: bool)
    ensures
        r == (name@ == "core:"@ + token@),
{
    let p = "core:";
    let pl = p.unicode_len();
    let tl = token.unicode_len();
    let nl = name.unicode_len();
    if nl < tl || nl - tl != pl {
        return false;
    }
    let a = occurs_at(name, 0, p);
    let b = occurs_at(name, pl, token);
    proof {
        if a && b {
            assert(name@ =~= p@ + token@);
        }
        if name@ == p@ + token@ {
            assert(name@.subrange(0, pl as int) =~= p@);
            assert(name@.subrange(pl as int, pl + tl) =~= token@);
        }
    }
    a && b
}

// ---------------------------------------------------------------------------
// Quantities
// ---------------------------------------------------------------------------

/// Whether `c` is a decimal digit.
pub open spec fn is_digit(c: char) -> bool {
    '0' <= c && c <= '9'
}

/// The number a string of decimal digits denotes.
pub open spec fn digits_value(s: Seq<char>) -> int
    decreases s.len(),
{
    if s.len() == 0 {
        0
    } else {
        digits_value(s.drop_last()) * 10 + (s.last() as u32 - 48)
    }
}

/// The digits of a quantity token: the token without one leading `+`.
pub open spec fn unsigned_digits(s: Seq<char>) -> Seq<char> {
    if s.len() > 0 && s[0] == '+' {
        s.drop_first()
    } else {
        s
    }
}

/// Every character of `d` is a decimal digit.
pub open spec fn all_digits(d: Seq<char>) -> bool {
    forall|i: int| 0 <= i < d.len() ==> is_digit(#[trigger] d[i])
}

/// What `str::parse::<u32>` accepts: an optional `+` and then at least one
/// decimal digit, denoting a number that fits in a `u32`.
pub open spec fn parse_u32(s: Seq<char>) -> Option<u32> {
    let d = unsigned_digits(s);
    if d.len() > 0 && all_digits(d) && digits_value(d) <= u32::MAX {
        Some(digits_value(d) as u32)
    } else {
        None
    }
}

/// A longer digit string denotes at least as much as its prefix.
proof fn lemma_digits_grow(s: Seq<char>, k: int)
    requires
        0 <= k <= s.len(),
        forall|i: int| 0 <= i < s.len() ==> is_digit(#[trigger] s[i]),
    ensures
        digits_value(s.take(k)) <= digits_value(s),
        digits_value(s) >= 0,
    decreases s.len(),
{
    if s.len() > 0 {
        let p = s.drop_last();
        assert forall|i: int| 0 <= i < p.len() implies is_digit(#[trigger] p[i]) by {
            assert(p[i] == s[i]);
        }
        assert(is_digit(s[s.len() - 1]));
        if k == s.len() {
            assert(s.take(k) =~= s);
            lemma_digits_grow(p, 0);
        } else {
            assert(p.take(k) =~= s.take(k));
            lemma_digits_grow(p, k);
        }
    } else {
        assert(s.take(k) =~= s);
    }
}

/// The message for a token that is not a quantity.
pub open spec fn not_a_number(t: Seq<char>) -> Seq<char> {
    "`"@ + t + "` is not a number"@
}

/// A quantity token's value: what `str::parse::<u32>` accepts, provided it is
/// positive.
pub open spec fn parse_quantity(s: Seq<char>) -> Option<u32> {
    match parse_u32(s) {
        Some(n) => if n >= 1 {
            Some(n)
        } else {
            None
        },
        None => None,
    }
}

/// Parse a positive quantity token (decimal, as `str::parse::<u32>` reads
/// it; zero is refused).
fn parse_qty(t: &str) -> (r: Result<u32, String>)
    ensures
        parse_quantity(t@) is Some ==> r == Ok::<u32, String>(parse_quantity(t@)->0),
        parse_quantity(t@) is None ==> (r matches Err(e) && e@ == not_a_number(t@)),
{
    let ghost s = t@;
    let n = t.unicode_len();
    let mut i: usize = 0;
    if n > 0 && t.get_char(0) == '+' {
        i = 1;
    }
    let ghost d = unsigned_digits(s);
    assert(d =~= s.subrange(i as int, n as int));
    let first = i;
    let mut value: u64 = 0;
    let mut ok = i < n;
    assert(d.take(0) =~= Seq::<char>::empty());
    while i < n
        invariant
            n == s.len(),
            s == t@,
            d == s.subrange(first as int, n as int),
            d == unsigned_digits(s),
            first <= i <= n,
            ok ==> value == digits_value(d.take(i - first)),
            ok ==> value <= u32::MAX,
            ok ==> forall|j: int| 0 <= j < i - first ==> is_digit(#[trigger] d[j]),
            !ok ==> parse_u32(s) is None,
            first == n ==> !ok,
            i < n ==> ok,
        decreases n - i,
    {
        let c = t.get_char(i);
        assert(d[i - first] == c);
        if '0' <= c && c <= '9' {
            let digit = (c as u32 - 48) as u64;
            let next = value * 10 + digit;
            proof {
                assert(d.take(i - first + 1).drop_last() =~= d.take(i - first));
                assert(d.take(i - first + 1).last() == c);
            }
            if next > 0xFFFF_FFFF {
                proof {
                    let k = i - first + 1;
                    assert(next == digits_value(d.take(k)));
                    if all_digits(d) {
                        lemma_digits_grow(d, k);
                        assert(digits_value(d) > u32::MAX);
                    }
                    assert(parse_u32(s) is None);
                }
                ok = false;
                i = n;
            } else {
                value = next;
                i = i + 1;
            }
        } else {
            assert(!is_digit(d[i - first]));
            assert(!all_digits(d));
            assert(parse_u32(s) is None);
            ok = false;
            i = n;
        }
    }
    if ok && value >= 1 {
        assert(d.take(n - first) =~= d);
        Ok(value as u32)
    } else {
        if ok {
            assert(d.take(n - first) =~= d);
        }
        let mut e = String::from_str("`");
        e.append(t);
        e.append("` is not a number");
        Err(e)
    }
}


// ---------------------------------------------------------------------------
// Names
// ---------------------------------------------------------------------------

/// The content id a table shows for handle `i`: its entry, or `?` past the
/// end of the table.
pub open spec fn name_or_unknown(names: Seq<Seq<char>>, i: int) -> Seq<char> {
    if 0 <= i < names.len() {
        names[i]
    } else {
        "?"@
    }
}

/// `token` names the entry with content id `id` and display name `name`: it
/// is the id, the id without its `core:` namespace, or the display name in
/// any ASCII case.
pub open spec fn names_entry(id: Seq<char>, name: Seq<char>, token: Seq<char>) -> bool {
    ||| id == token
    ||| id == "core:"@ + token
    ||| eq_ignore_case(name, token)
}

fn matches_entry(id: &str, name: &str, token: &str) -> (r: bool)
    ensures
        r == names_entry(id@, name@, token@),
{
    same_str(id, token) || is_core_name(id, token) || equal_ignoring_case(name, token)
}

/// The first of the first `n` commodities, in handle order, that `token`
/// names.
pub open spec fn first_commodity_named<F>(reg: Registry<F>, token: Seq<char>, n: nat) -> Option<nat>
    decreases n,
{
    if n == 0 {
        None
    } else {
        match first_commodity_named(reg, token, (n - 1) as nat) {
            Some(i) => Some(i),
            None => if names_entry(
                name_or_unknown(reg.commodity_names(), n - 1),
                reg.commodity_defs()[n - 1].name@,
                token,
            ) {
                Some((n - 1) as nat)
            } else {
                None
            },
        }
    }
}

/// The first of the first `n` systems, in handle order, that `token` names.
pub open spec fn first_system_named<F>(reg: Registry<F>, token: Seq<char>, n: nat) -> Option<nat>
    decreases n,
{
    if n == 0 {
        None
    } else {
        match first_system_named(reg, token, (n - 1) as nat) {
            Some(i) => Some(i),
            None => if names_entry(
                name_or_unknown(reg.system_names(), reg.system_list()[n - 1].id.0 as int),
                reg.system_list()[n - 1].name@,
                token,
            ) {
                Some((n - 1) as nat)
            } else {
                None
            },
        }
    }
}

/// The commodity `token` names: the first match in handle order.
pub open spec fn commodity_named<F>(reg: Registry<F>, token: Seq<char>) -> Option<CommodityId> {
    match first_commodity_named(reg, token, reg.commodity_defs().len()) {
        Some(i) => Some(CommodityId(i as u32)),
        None => None,
    }
}

/// The system `token` names: the first match in handle order.
pub open spec fn system_named<F>(reg: Registry<F>, token: Seq<char>) -> Option<SystemId> {
    match first_system_named(reg, token, reg.system_list().len()) {
        Some(i) => Some(reg.system_list()[i as int].id),
        None => None,
    }
}

/// Resolve a commodity from a player token.
fn resolve_commodity<F>(reg: &Registry<F>, token: &str) -> (r: Option<CommodityId>)
    requires
        reg.commodity_defs().len() <= u32::MAX,
    ensures
        r == commodity_named(*reg, token@),
{
    let n = reg.commodity_count();
    let mut i: usize = 0;
    while i < n
        invariant
            n == reg.commodity_defs().len(),
            n <= u32::MAX,
            i <= n,
            first_commodity_named(*reg, token@, i as nat) is None,
        decreases n - i,
    {
        let cid = CommodityId(i as u32);
        let id = reg.commodity_name(cid);
        let def = reg.commodity(cid);
        if matches_entry(id, def.name.as_str(), token) {
            assert(first_commodity_named(*reg, token@, (i + 1) as nat) == Some(i as nat));
            proof {
                lemma_first_found_commodity(*reg, token@, (i + 1) as nat, n as nat);
            }
            return Some(cid);
        }
        i = i + 1;
    }
    None
}

/// Once a match is found among the first `k`, it is the first among more.
proof fn lemma_first_found_commodity<F>(reg: Registry<F>, token: Seq<char>, k: nat, n: nat)
    requires
        k <= n,
        first_commodity_named(reg, token, k) is Some,
    ensures
        first_commodity_named(reg, token, n) == first_commodity_named(reg, token, k),
    decreases n - k,
{
    if k < n {
        lemma_first_found_commodity(reg, token, k, (n - 1) as nat);
    }
}

/// Once a match is found among the first `k`, it is the first among more.
proof fn lemma_first_found_system<F>(reg: Registry<F>, token: Seq<char>, k: nat, n: nat)
    requires
        k <= n,
        first_system_named(reg, token, k) is Some,
    ensures
        first_system_named(reg, token, n) == first_system_named(reg, token, k),
    decreases n - k,
{
    if k < n {
        lemma_first_found_system(reg, token, k, (n - 1) as nat);
    }
}

/// Resolve a system from a player token.
fn resolve_system<F>(reg: &Registry<F>, token: &str) -> (r: Option<SystemId>)
    ensures
        r == system_named(*reg, token@),
{
    let systems = reg.systems();
    let n = systems.len();
    let mut i: usize = 0;
    while i < n
        invariant
            n == reg.system_list().len(),
            systems@ == reg.system_list(),
            i <= n,
            first_system_named(*reg, token@, i as nat) is None,
        decreases n - i,
    {
        let sys = &systems[i];
        let id = reg.system_name(sys.id);
        if matches_entry(id, sys.name.as_str(), token) {
            assert(first_system_named(*reg, token@, (i + 1) as nat) == Some(i as nat));
            proof {
                lemma_first_found_system(*reg, token@, (i + 1) as nat, n as nat);
            }
            return Some(sys.id);
        }
        i = i + 1;
    }
    None
}

// ---------------------------------------------------------------------------
// Actions
// ---------------------------------------------------------------------------

/// `"` + `t` + `"` quoted in backticks after `prefix`.
pub open spec fn quoted(prefix: Seq<char>, t: Seq<char>) -> Seq<char> {
    prefix + "`"@ + t + "`"@
}

/// A buy (`buy` true) or sell with operands `rest`.
pub open spec fn trade_action<F>(buy: bool, rest: Seq<Seq<char>>, reg: Registry<F>) -> Result<Action, Seq<char>> {
    if rest.len() != 2 {
        Err(
            if buy {
                "usage: buy <commodity> <qty>"@
            } else {
                "usage: sell <commodity> <qty>"@
            },
        )
    } else {
        match commodity_named(reg, rest[0]) {
            None => Err(quoted("no such commodity "@, rest[0])),
            Some(c) => match parse_quantity(rest[1]) {
                None => Err(not_a_number(rest[1])),
                Some(q) => Ok(
                    if buy {
                        Action::Buy(c, q)
                    } else {
                        Action::Sell(c, q)
                    },
                ),
            },
        }
    }
}

/// What a line of input means: the first word, in lower case, picks the
/// action and the remaining words are its operands.
pub open spec fn parse_action_spec<F>(line: Seq<char>, reg: Registry<F>) -> Result<Action, Seq<char>> {
    let ws = words(line);
    if ws.len() == 0 {
        Err("type a command (try `help`)"@)
    } else {
        let v = lower_seq(ws[0]);
        let rest = ws.drop_first();
        if v == "buy"@ || v == "b"@ {
            trade_action(true, rest, reg)
        } else if v == "sell"@ {
            trade_action(false, rest, reg)
        } else if v == "jump"@ || v == "j"@ {
            if rest.len() == 1 {
                match system_named(reg, rest[0]) {
                    Some(s) => Ok(Action::Jump(s)),
                    None => Err(quoted("no such system "@, rest[0])),
                }
            } else {
                Err("usage: jump <system>"@)
            }
        } else if v == "wait"@ || v == "w"@ {
            if rest.len() == 0 {
                Ok(Action::Wait(1))
            } else {
                match parse_quantity(rest[0]) {
                    Some(n) => Ok(Action::Wait(n as u64)),
                    None => Err(not_a_number(rest[0])),
                }
            }
        } else if v == "status"@ || v == "s"@ || v == "look"@ || v == "l"@ {
            Ok(Action::Status)
        } else if v == "map"@ || v == "m"@ {
            Ok(Action::ShowMap)
        } else if v == "help"@ || v == "h"@ || v == "?"@ {
            Ok(Action::Help)
        } else if v == "quit"@ || v == "q"@ || v == "exit"@ {
            Ok(Action::Quit)
        } else {
            Err(quoted("unknown command "@, v) + " (try `help`)"@)
        }
    }
}

/// `prefix`, then `t` in backticks.
fn quote(prefix: &str, t: &str) -> (r: String)
    ensures
        r@ == quoted(prefix@, t@),
{
    let mut e = String::from_str(prefix);
    e.append("`");
    e.append(t);
    e.append("`");
    e
}

fn parse_trade<F>(buy: bool, rest: &[&str], reg: &Registry<F>) -> (r: Result<Action, String>)
    requires
        reg.commodity_defs().len() <= u32::MAX,
    ensures
        r matches Ok(a) ==> trade_action(buy, str_views(rest@), *reg) == Ok::<Action, Seq<char>>(a),
        r matches Err(e) ==> trade_action(buy, str_views(rest@), *reg) == Err::<Action, Seq<char>>(e@),
{
    let ghost rs = str_views(rest@);
    if rest.len() != 2 {
        return Err(String::from_str(if buy { "usage: buy <commodity> <qty>" } else { "usage: sell <commodity> <qty>" }));
    }
    assert(rs[0] == rest@[0]@ && rs[1] == rest@[1]@);
    match resolve_commodity(reg, rest[0]) {
        None => Err(quote("no such commodity ", rest[0])),
        Some(c) => match parse_qty(rest[1]) {
            Err(e) => Err(e),
            Ok(q) => Ok(if buy { Action::Buy(c, q) } else { Action::Sell(c, q) }),
        },
    }
}

/// Parse a line of input into an [`Action`], or a human-readable error.
pub fn parse_action<F>(line: &str, reg: &Registry<F>) -> (r: Result<Action, String>)
    requires
        reg.commodity_defs().len() <= u32::MAX,
    ensures
        r matches Ok(a) ==> parse_action_spec(line@, *reg) == Ok::<Action, Seq<char>>(a),
        r matches Err(e) ==> parse_action_spec(line@, *reg) == Err::<Action, Seq<char>>(e@),
{
    let ws = split_words(line);
    let ghost vs = str_views(ws@);
    if ws.len() == 0 {
        return Err(String::from_str("type a command (try `help`)"));
    }
    assert(vs[0] == ws@[0]@);
    let verb = to_ascii_lowercase(ws[0]);
    let v = verb.as_str();
    let rest = vstd::slice::slice_subrange(ws.as_slice(), 1, ws.len());
    assert(str_views(rest@) =~= vs.drop_first());
    if same_str(v, "buy") || same_str(v, "b") {
        parse_trade(true, rest, reg)
    } else if same_str(v, "sell") {
        parse_trade(false, rest, reg)
    } else if same_str(v, "jump") || same_str(v, "j") {
        if rest.len() == 1 {
            assert(str_views(rest@)[0] == rest@[0]@);
            match resolve_system(reg, rest[0]) {
                Some(s) => Ok(Action::Jump(s)),
                None => Err(quote("no such system ", rest[0])),
            }
        } else {
            Err(String::from_str("usage: jump <system>"))
        }
    } else if same_str(v, "wait") || same_str(v, "w") {
        if rest.len() == 0 {
            Ok(Action::Wait(1))
        } else {
            assert(str_views(rest@)[0] == rest@[0]@);
            match parse_qty(rest[0]) {
                Ok(n) => Ok(Action::Wait(n as u64)),
                Err(e) => Err(e),
            }
        }
    } else if same_str(v, "status") || same_str(v, "s") || same_str(v, "look") || same_str(v, "l") {
        Ok(Action::Status)
    } else if same_str(v, "map") || same_str(v, "m") {
        Ok(Action::ShowMap)
    } else if same_str(v, "help") || same_str(v, "h") || same_str(v, "?") {
        Ok(Action::Help)
    } else if same_str(v, "quit") || same_str(v, "q") || same_str(v, "exit") {
        Ok(Action::Quit)
    } else {
        let mut e = quote("unknown command ", v);
        e.append(" (try `help`)");
        Err(e)
    }
}

} // verus!
