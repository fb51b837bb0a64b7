//! A verified parser for the flat JSON documents this pipeline exchanges:
//! one object of scalar fields per log line, and arrays of such objects in
//! the todo snapshot files.
//!
//! The grammar is deliberately exactly the one the external interfaces use:
//! objects whose values are strings (with the two-character escapes),
//! unsigned integers, booleans or null, and arrays of such objects.  A
//! document outside that grammar is malformed and yields `None`; callers
//! skip such input per item, they never abort on it.

use vstd::prelude::*;
use vstd::string::StrSliceExecFns;
use vstd::string::StringExecFns;

verus! {

/// A scalar JSON value as the flat grammar allows it.
pub enum JsonScalar {
    Str(String),
    Int(u64),
    Bool(bool),
    Null,
}

/// Mathematical model of a scalar value.
pub enum JsonValue {
    VStr(Seq<char>),
    VInt(u64),
    VBool(bool),
    VNull,
}

impl View for JsonScalar {
    type V = JsonValue;

    open spec fn view(&self) -> JsonValue {
        match self {
            JsonScalar::Str(s) => JsonValue::VStr(s@),
            JsonScalar::Int(n) => JsonValue::VInt(*n),
            JsonScalar::Bool(b) => JsonValue::VBool(*b),
            JsonScalar::Null => JsonValue::VNull,
        }
    }
}

/// One `key: value` member of a parsed object.
pub struct JsonMember {
    pub key: String,
    pub value: JsonScalar,
}

impl View for JsonMember {
    type V = (Seq<char>, JsonValue);

    open spec fn view(&self) -> (Seq<char>, JsonValue) {
        (self.key@, self.value@)
    }
}

/// The members of an object, in document order.
pub open spec fn members_view(ms: Seq<JsonMember>) -> Seq<(Seq<char>, JsonValue)> {
    ms.map_values(|m: JsonMember| m@)
}

/// JSON whitespace.
pub open spec fn is_json_ws(c: char) -> bool {
    c == ' ' || c == '\t' || c == '\r' || c == '\n'
}

/// The first position at or after `i` holding a non-whitespace character.
pub open spec fn skip_ws(s: Seq<char>, i: int) -> int
    decreases s.len() - i,
{
    if 0 <= i < s.len() && is_json_ws(s[i]) {
        skip_ws(s, i + 1)
    } else {
        i
    }
}

pub proof fn lemma_skip_ws_bounds(s: Seq<char>, i: int)
    requires
        0 <= i <= s.len(),
    ensures
        i <= skip_ws(s, i) <= s.len(),
    decreases s.len() - i,
{
    if i < s.len() && is_json_ws(s[i]) {
        lemma_skip_ws_bounds(s, i + 1);
    }
}

/// The character an escape introducer stands for, for the two-character
/// escapes of the grammar; `\u` escapes are outside it.
pub open spec fn escape_char(c: char) -> Option<char> {
    if c == '"' {
        Some('"')
    } else if c == '\\' {
        Some('\\')
    } else if c == '/' {
        Some('/')
    } else if c == 'n' {
        Some('\n')
    } else if c == 't' {
        Some('\t')
    } else if c == 'r' {
        Some('\r')
    } else if c == 'b' {
        Some('\u{8}')
    } else if c == 'f' {
        Some('\u{c}')
    } else {
        None
    }
}

/// Parse the body of a string literal from position `i` (just inside the
/// opening quote) to its closing quote: the decoded content and the
/// position after the quote.
pub open spec fn parse_string_body(s: Seq<char>, i: int) -> Option<(Seq<char>, int)>
    decreases s.len() - i,
{
    if i < 0 || i >= s.len() {
        None
    } else if s[i] == '"' {
        Some((Seq::<char>::empty(), i + 1))
    } else if s[i] == '\\' {
        if i + 1 < s.len() {
            match escape_char(s[i + 1]) {
                Some(e) => match parse_string_body(s, i + 2) {
                    Some((rest, j)) => Some((seq![e] + rest, j)),
                    None => None,
                },
                None => None,
            }
        } else {
            None
        }
    } else if (s[i] as u32) < 32 {
        None
    } else {
        match parse_string_body(s, i + 1) {
            Some((rest, j)) => Some((seq![s[i]] + rest, j)),
            None => None,
        }
    }
}

/// Parse a quoted string starting at `i`.
pub open spec fn parse_string(s: Seq<char>, i: int) -> Option<(Seq<char>, int)> {
    if 0 <= i < s.len() && s[i] == '"' {
        parse_string_body(s, i + 1)
    } else {
        None
    }
}

pub open spec fn is_digit(c: char) -> bool {
    '0' <= c <= '9'
}

pub open spec fn digit_value(c: char) -> int {
    c as int - '0' as int
}

/// Fold the digit run starting at `i` into `acc`; `None` when the value
/// outgrows `u64`.
pub open spec fn parse_digits(s: Seq<char>, i: int, acc: u64) -> Option<(u64, int)>
    decreases s.len() - i,
{
    if i < 0 || i >= s.len() || !is_digit(s[i]) {
        Some((acc, i))
    } else if acc * 10 + digit_value(s[i]) > u64::MAX {
        None
    } else {
        parse_digits(s, i + 1, (acc * 10 + digit_value(s[i])) as u64)
    }
}

/// Parse an unsigned integer starting at `i`; leading zeros are outside
/// the grammar, as they are outside JSON's.
pub open spec fn parse_number(s: Seq<char>, i: int) -> Option<(u64, int)> {
    if !(0 <= i < s.len() && is_digit(s[i])) {
        None
    } else if s[i] == '0' && i + 1 < s.len() && is_digit(s[i + 1]) {
        None
    } else {
        parse_digits(s, i, 0)
    }
}

/// Parse one scalar value starting at `i`.
pub open spec fn parse_value(s: Seq<char>, i: int) -> Option<(JsonValue, int)> {
    if !(0 <= i < s.len()) {
        None
    } else if s[i] == '"' {
        match parse_string(s, i) {
            Some((v, j)) => Some((JsonValue::VStr(v), j)),
            None => None,
        }
    } else if is_digit(s[i]) {
        match parse_number(s, i) {
            Some((v, j)) => Some((JsonValue::VInt(v), j)),
            None => None,
        }
    } else if s[i] == 't' {
        if i + 4 <= s.len() && s[i + 1] == 'r' && s[i + 2] == 'u' && s[i + 3] == 'e' {
            Some((JsonValue::VBool(true), i + 4))
        } else {
            None
        }
    } else if s[i] == 'f' {
        if i + 5 <= s.len() && s[i + 1] == 'a' && s[i + 2] == 'l' && s[i + 3] == 's' && s[i + 4]
            == 'e' {
            Some((JsonValue::VBool(false), i + 5))
        } else {
            None
        }
    } else if s[i] == 'n' {
        if i + 4 <= s.len() && s[i + 1] == 'u' && s[i + 2] == 'l' && s[i + 3] == 'l' {
            Some((JsonValue::VNull, i + 4))
        } else {
            None
        }
    } else {
        None
    }
}

/// Parse one `"key": value` member starting at `i`.
pub open spec fn parse_member(s: Seq<char>, i: int) -> Option<((Seq<char>, JsonValue), int)> {
    match parse_string(s, i) {
        Some((k, j)) => {
            let j2 = skip_ws(s, j);
            if 0 <= j2 < s.len() && s[j2] == ':' {
                let j3 = skip_ws(s, j2 + 1);
                match parse_value(s, j3) {
                    Some((v, j4)) => Some(((k, v), j4)),
                    None => None,
                }
            } else {
                None
            }
        },
        None => None,
    }
}

/// Parse the member list of an object from the start of its first member,
/// through the closing `}`.
pub open spec fn parse_members(s: Seq<char>, i: int) -> Option<
    (Seq<(Seq<char>, JsonValue)>, int),
>
    decreases s.len() - i,
{
    match parse_member(s, i) {
        Some((m, j)) => {
            let j2 = skip_ws(s, j);
            if 0 <= j2 < s.len() && s[j2] == ',' {
                let j3 = skip_ws(s, j2 + 1);
                if j3 <= i || j3 > s.len() {
                    None
                } else {
                    match parse_members(s, j3) {
                        Some((rest, j4)) => Some((seq![m] + rest, j4)),
                        None => None,
                    }
                }
            } else if 0 <= j2 < s.len() && s[j2] == '}' {
                Some((seq![m], j2 + 1))
            } else {
                None
            }
        },
        None => None,
    }
}

/// Parse one object starting at `i`: its members and the position after
/// the closing `}`.
pub open spec fn parse_object_at(s: Seq<char>, i: int) -> Option<
    (Seq<(Seq<char>, JsonValue)>, int),
> {
    if !(0 <= i < s.len() && s[i] == '{') {
        None
    } else {
        let j = skip_ws(s, i + 1);
        if 0 <= j < s.len() && s[j] == '}' {
            Some((Seq::<(Seq<char>, JsonValue)>::empty(), j + 1))
        } else {
            parse_members(s, j)
        }
    }
}

/// A whole document that is one object, with nothing but whitespace
/// around it.
pub open spec fn parse_object_text(s: Seq<char>) -> Option<Seq<(Seq<char>, JsonValue)>> {
    match parse_object_at(s, skip_ws(s, 0)) {
        Some((ms, j)) => {
            if 0 <= j <= s.len() && skip_ws(s, j) == s.len() {
                Some(ms)
            } else {
                None
            }
        },
        None => None,
    }
}

/// Parse the element list of an array of objects from the start of its
/// first element, through the closing `]`.
pub open spec fn parse_elements(s: Seq<char>, i: int) -> Option<
    (Seq<Seq<(Seq<char>, JsonValue)>>, int),
>
    decreases s.len() - i,
{
    match parse_object_at(s, i) {
        Some((ms, j)) => {
            let j2 = skip_ws(s, j);
            if 0 <= j2 < s.len() && s[j2] == ',' {
                let j3 = skip_ws(s, j2 + 1);
                if j3 <= i || j3 > s.len() {
                    None
                } else {
                    match parse_elements(s, j3) {
                        Some((rest, j4)) => Some((seq![ms] + rest, j4)),
                        None => None,
                    }
                }
            } else if 0 <= j2 < s.len() && s[j2] == ']' {
                Some((seq![ms], j2 + 1))
            } else {
                None
            }
        },
        None => None,
    }
}

/// A whole document that is one array of objects, with nothing but
/// whitespace around it.
pub open spec fn parse_object_array_text(s: Seq<char>) -> Option<
    Seq<Seq<(Seq<char>, JsonValue)>>,
> {
    let i = skip_ws(s, 0);
    if !(0 <= i < s.len() && s[i] == '[') {
        None
    } else {
        let j = skip_ws(s, i + 1);
        if 0 <= j < s.len() && s[j] == ']' {
            if skip_ws(s, j + 1) == s.len() {
                Some(Seq::<Seq<(Seq<char>, JsonValue)>>::empty())
            } else {
                None
            }
        } else {
            match parse_elements(s, j) {
                Some((es, j2)) => {
                    if 0 <= j2 <= s.len() && skip_ws(s, j2) == s.len() {
                        Some(es)
                    } else {
                        None
                    }
                },
                None => None,
            }
        }
    }
}

/// Whether `c` is JSON whitespace, decided exactly as `is_json_ws` says.
fn json_ws(c: char) -> (r: bool)
    ensures
        r == is_json_ws(c),
{
    c == ' ' || c == '\t' || c == '\r' || c == '\n'
}

/// Whether `c` is a decimal digit, decided exactly as `is_digit` says.
fn digit(c: char) -> (r: bool)
    ensures
        r == is_digit(c),
{
    '0' <= c && c <= '9'
}

/// First non-whitespace position at or after `i`, as `skip_ws` says.
fn skip_ws_from(cs: &Vec<char>, i: usize) -> (r: usize)
    requires
        i <= cs@.len(),
    ensures
        r == skip_ws(cs@, i as int),
        i <= r <= cs@.len(),
{
    let n: usize = cs.len();
    let mut cur: usize = i;
    while cur < n && json_ws(cs[cur])
        invariant
            n == cs@.len(),
            i <= cur <= n,
            skip_ws(cs@, i as int) == skip_ws(cs@, cur as int),
        decreases n - cur,
    {
        cur = cur + 1;
    }
    cur
}

/// The string slice an escape introducer stands for, holding exactly the
/// one character `escape_char` gives.
fn escape_str(c: char) -> (r: Option<&'static str>)
    ensures
        match r {
            Some(t) => escape_char(c) is Some && t@ == seq![escape_char(c)->Some_0],
            None => escape_char(c) is None,
        },
{
    if c == '"' {
        proof {
            reveal_strlit("\"");
            assert("\""@ =~= seq!['"']);
        }
        Some("\"")
    } else if c == '\\' {
        proof {
            reveal_strlit("\\");
            assert("\\"@ =~= seq!['\\']);
        }
        Some("\\")
    } else if c == '/' {
        proof {
            reveal_strlit("/");
            assert("/"@ =~= seq!['/']);
        }
        Some("/")
    } else if c == 'n' {
        proof {
            reveal_strlit("\n");
            assert("\n"@ =~= seq!['\n']);
        }
        Some("\n")
    } else if c == 't' {
        proof {
            reveal_strlit("\t");
            assert("\t"@ =~= seq!['\t']);
        }
        Some("\t")
    } else if c == 'r' {
        proof {
            reveal_strlit("\r");
            assert("\r"@ =~= seq!['\r']);
        }
        Some("\r")
    } else if c == 'b' {
        proof {
            reveal_strlit("\u{8}");
            assert("\u{8}"@ =~= seq!['\u{8}']);
        }
        Some("\u{8}")
    } else if c == 'f' {
        proof {
            reveal_strlit("\u{c}");
            assert("\u{c}"@ =~= seq!['\u{c}']);
        }
        Some("\u{c}")
    } else {
        None
    }
}

/// How a partial scan of a string body relates to the full parse: the
/// content decoded so far, prepended to whatever remains, gives the whole.
spec fn string_body_step(s: Seq<char>, i0: int, acc: Seq<char>, cur: int) -> bool {
    parse_string_body(s, i0) == (match parse_string_body(s, cur) {
        Some((rest, j)) => Some::<(Seq<char>, int)>((acc + rest, j)),
        None => None::<(Seq<char>, int)>,
    })
}

/// Parse a quoted string starting at `i`, as `parse_string` says.
fn parse_string_at(s: &str, cs: &Vec<char>, i: usize) -> (r: Option<(String, usize)>)
    requires
        cs@ == s@,
        i <= cs@.len(),
    ensures
        match r {
            Some(v) => parse_string(cs@, i as int) == Some((v.0@, v.1 as int)) && i < v.1
                <= cs@.len(),
            None => parse_string(cs@, i as int) is None,
        },
{
    let n: usize = cs.len();
    if i >= n || cs[i] != '"' {
        return None;
    }
    let mut acc = String::new();
    let mut cur: usize = i + 1;
    proof {
        if parse_string_body(cs@, cur as int) is Some {
            let p = parse_string_body(cs@, cur as int)->Some_0;
            assert(Seq::<char>::empty() + p.0 =~= p.0);
        }
    }
    loop
        invariant
            n == cs@.len(),
            cs@ == s@,
            i < n && cs@[i as int] == '"',
            i + 1 <= cur <= n,
            string_body_step(cs@, i + 1, acc@, cur as int),
        decreases n - cur,
    {
        if cur >= n {
            return None;
        }
        let c = cs[cur];
        if c == '"' {
            proof {
                assert(parse_string_body(cs@, cur as int) == Some::<(Seq<char>, int)>((
                    Seq::<char>::empty(),
                    cur + 1,
                )));
                assert(acc@ + Seq::<char>::empty() =~= acc@);
            }
            return Some((acc, cur + 1));
        }
        if c == '\\' {
            if cur + 1 >= n {
                return None;
            }
            match escape_str(cs[cur + 1]) {
                Some(t) => {
                    proof {
                        let e = escape_char(cs@[cur + 1])->Some_0;
                        if parse_string_body(cs@, cur + 2) is Some {
                            let p = parse_string_body(cs@, cur + 2)->Some_0;
                            assert((acc@ + seq![e]) + p.0 =~= acc@ + (seq![e] + p.0));
                        }
                    }
                    acc.append(t);
                    cur = cur + 2;
                },
                None => {
                    return None;
                },
            }
        } else if (c as u32) < 32 {
            return None;
        } else {
            let t = s.substring_char(cur, cur + 1);
            proof {
                assert(t@ =~= seq![c]);
                if parse_string_body(cs@, cur + 1) is Some {
                    let p = parse_string_body(cs@, cur + 1)->Some_0;
                    assert((acc@ + seq![c]) + p.0 =~= acc@ + (seq![c] + p.0));
                }
            }
            acc.append(t);
            cur = cur + 1;
        }
    }
}

/// Parse an unsigned integer starting at `i`, as `parse_number` says.
fn parse_number_at(cs: &Vec<char>, i: usize) -> (r: Option<(u64, usize)>)
    requires
        i <= cs@.len(),
    ensures
        match r {
            Some(v) => parse_number(cs@, i as int) == Some((v.0, v.1 as int)) && i < v.1
                <= cs@.len(),
            None => parse_number(cs@, i as int) is None,
        },
{
    let n: usize = cs.len();
    if i >= n || !digit(cs[i]) {
        return None;
    }
    if cs[i] == '0' && i + 1 < n && digit(cs[i + 1]) {
        return None;
    }
    let mut acc: u64 = 0;
    let mut cur: usize = i;
    loop
        invariant
            n == cs@.len(),
            i <= cur <= n,
            i < n && is_digit(cs@[i as int]),
            !(cs@[i as int] == '0' && i + 1 < n && is_digit(cs@[i + 1])),
            parse_digits(cs@, i as int, 0) == parse_digits(cs@, cur as int, acc),
        decreases n - cur,
    {
        if cur >= n || !digit(cs[cur]) {
            proof {
                assert(parse_digits(cs@, cur as int, acc) == Some::<(u64, int)>((
                    acc,
                    cur as int,
                )));
            }
            return Some((acc, cur));
        }
        let c = cs[cur];
        let d: u64 = ((c as u32) - ('0' as u32)) as u64;
        let next = match acc.checked_mul(10) {
            Some(m) => m.checked_add(d),
            None => None,
        };
        match next {
            Some(v) => {
                acc = v;
            },
            None => {
                return None;
            },
        }
        cur = cur + 1;
    }
}

/// Parse one scalar value starting at `i`, as `parse_value` says.
fn parse_value_at(s: &str, cs: &Vec<char>, i: usize) -> (r: Option<(JsonScalar, usize)>)
    requires
        cs@ == s@,
        i <= cs@.len(),
    ensures
        match r {
            Some(v) => parse_value(cs@, i as int) == Some((v.0@, v.1 as int)) && i < v.1
                <= cs@.len(),
            None => parse_value(cs@, i as int) is None,
        },
{
    let n: usize = cs.len();
    if i >= n {
        return None;
    }
    let c = cs[i];
    if c == '"' {
        match parse_string_at(s, cs, i) {
            Some((v, j)) => Some((JsonScalar::Str(v), j)),
            None => None,
        }
    } else if digit(c) {
        match parse_number_at(cs, i) {
            Some((v, j)) => Some((JsonScalar::Int(v), j)),
            None => None,
        }
    } else if c == 't' {
        if n - i >= 4 && cs[i + 1] == 'r' && cs[i + 2] == 'u' && cs[i + 3] == 'e' {
            Some((JsonScalar::Bool(true), i + 4))
        } else {
            None
        }
    } else if c == 'f' {
        if n - i >= 5 && cs[i + 1] == 'a' && cs[i + 2] == 'l' && cs[i + 3] == 's' && cs[i + 4]
            == 'e' {
            Some((JsonScalar::Bool(false), i + 5))
        } else {
            None
        }
    } else if c == 'n' {
        if n - i >= 4 && cs[i + 1] == 'u' && cs[i + 2] == 'l' && cs[i + 3] == 'l' {
            Some((JsonScalar::Null, i + 4))
        } else {
            None
        }
    } else {
        None
    }
}

/// Parse one `"key": value` member starting at `i`, as `parse_member`
/// says.
fn parse_member_at(s: &str, cs: &Vec<char>, i: usize) -> (r: Option<(JsonMember, usize)>)
    requires
        cs@ == s@,
        i <= cs@.len(),
    ensures
        match r {
            Some(v) => parse_member(cs@, i as int) == Some((v.0@, v.1 as int)) && i < v.1
                <= cs@.len(),
            None => parse_member(cs@, i as int) is None,
        },
{
    let n: usize = cs.len();
    let (key, j) = match parse_string_at(s, cs, i) {
        Some(kj) => kj,
        None => {
            return None;
        },
    };
    let j2 = skip_ws_from(cs, j);
    if j2 >= n || cs[j2] != ':' {
        return None;
    }
    let j3 = skip_ws_from(cs, j2 + 1);
    match parse_value_at(s, cs, j3) {
        Some((v, j4)) => Some((JsonMember { key, value: v }, j4)),
        None => None,
    }
}

/// How a partial scan of a member list relates to the full parse.
spec fn members_step(
    s: Seq<char>,
    i0: int,
    acc: Seq<(Seq<char>, JsonValue)>,
    cur: int,
) -> bool {
    parse_members(s, i0) == (match parse_members(s, cur) {
        Some((rest, j)) => Some::<(Seq<(Seq<char>, JsonValue)>, int)>((acc + rest, j)),
        None => None::<(Seq<(Seq<char>, JsonValue)>, int)>,
    })
}

/// Parse the member list of an object from the start of its first member,
/// as `parse_members` says.
fn parse_members_from(s: &str, cs: &Vec<char>, i: usize) -> (r: Option<(Vec<JsonMember>, usize)>)
    requires
        cs@ == s@,
        i <= cs@.len(),
    ensures
        match r {
            Some(v) => parse_members(cs@, i as int) == Some((members_view(v.0@), v.1 as int))
                && v.1 <= cs@.len(),
            None => parse_members(cs@, i as int) is None,
        },
{
    let n: usize = cs.len();
    let mut acc: Vec<JsonMember> = Vec::new();
    let mut cur: usize = i;
    proof {
        if parse_members(cs@, cur as int) is Some {
            let p = parse_members(cs@, cur as int)->Some_0;
            assert(members_view(acc@) + p.0 =~= p.0);
        }
    }
    loop
        invariant
            n == cs@.len(),
            cs@ == s@,
            cur <= n,
            members_step(cs@, i as int, members_view(acc@), cur as int),
        decreases n - cur,
    {
        let (m, j) = match parse_member_at(s, cs, cur) {
            Some(mj) => mj,
            None => {
                return None;
            },
        };
        let ghost prev_acc = members_view(acc@);
        let ghost mv = m@;
        let j2 = skip_ws_from(cs, j);
        if j2 < n && cs[j2] == ',' {
            let j3 = skip_ws_from(cs, j2 + 1);
            if j3 <= cur {
                return None;
            }
            acc.push(m);
            proof {
                assert(members_view(acc@) =~= prev_acc + seq![mv]);
                if parse_members(cs@, j3 as int) is Some {
                    let p = parse_members(cs@, j3 as int)->Some_0;
                    assert((prev_acc + seq![mv]) + p.0 =~= prev_acc + (seq![mv] + p.0));
                }
            }
            cur = j3;
        } else if j2 < n && cs[j2] == '}' {
            acc.push(m);
            proof {
                assert(members_view(acc@) =~= prev_acc + seq![mv]);
            }
            return Some((acc, j2 + 1));
        } else {
            return None;
        }
    }
}

/// Parse one object starting at `i`, as `parse_object_at` says.
fn parse_object_from(s: &str, cs: &Vec<char>, i: usize) -> (r: Option<(Vec<JsonMember>, usize)>)
    requires
        cs@ == s@,
        i <= cs@.len(),
    ensures
        match r {
            Some(v) => parse_object_at(cs@, i as int) == Some((members_view(v.0@), v.1 as int))
                && v.1 <= cs@.len(),
            None => parse_object_at(cs@, i as int) is None,
        },
{
    let n: usize = cs.len();
    if i >= n || cs[i] != '{' {
        return None;
    }
    let j = skip_ws_from(cs, i + 1);
    if j < n && cs[j] == '}' {
        let empty: Vec<JsonMember> = Vec::new();
        proof {
            assert(members_view(empty@) =~= Seq::<(Seq<char>, JsonValue)>::empty());
        }
        Some((empty, j + 1))
    } else {
        parse_members_from(s, cs, j)
    }
}

/// Parse a whole document that is one flat object, as `parse_object_text`
/// says: `None` exactly on input outside the grammar.
pub fn parse_object_str(s: &str) -> (r: Option<Vec<JsonMember>>)
    ensures
        match r {
            Some(ms) => parse_object_text(s@) == Some(members_view(ms@)),
            None => parse_object_text(s@) is None,
        },
{
    let cs = crate::strutil::chars_of(s);
    let i = skip_ws_from(&cs, 0);
    match parse_object_from(s, &cs, i) {
        Some((ms, j)) => {
            let k = skip_ws_from(&cs, j);
            if k == cs.len() {
                Some(ms)
            } else {
                None
            }
        },
        None => None,
    }
}

/// The member lists of the parsed elements, in document order.
pub open spec fn elements_view(es: Seq<Vec<JsonMember>>) -> Seq<Seq<(Seq<char>, JsonValue)>> {
    es.map_values(|v: Vec<JsonMember>| members_view(v@))
}

/// How a partial scan of an array's element list relates to the full
/// parse.
spec fn elements_step(
    s: Seq<char>,
    i0: int,
    acc: Seq<Seq<(Seq<char>, JsonValue)>>,
    cur: int,
) -> bool {
    parse_elements(s, i0) == (match parse_elements(s, cur) {
        Some((rest, j)) => Some::<(Seq<Seq<(Seq<char>, JsonValue)>>, int)>((acc + rest, j)),
        None => None::<(Seq<Seq<(Seq<char>, JsonValue)>>, int)>,
    })
}

/// Parse the element list of an array of objects from its first element,
/// as `parse_elements` says.
fn parse_elements_from(s: &str, cs: &Vec<char>, i: usize) -> (r: Option<
    (Vec<Vec<JsonMember>>, usize),
>)
    requires
        cs@ == s@,
        i <= cs@.len(),
    ensures
        match r {
            Some(v) => parse_elements(cs@, i as int) == Some((elements_view(v.0@), v.1 as int))
                && v.1 <= cs@.len(),
            None => parse_elements(cs@, i as int) is None,
        },
{
    let n: usize = cs.len();
    let mut acc: Vec<Vec<JsonMember>> = Vec::new();
    let mut cur: usize = i;
    proof {
        if parse_elements(cs@, cur as int) is Some {
            let p = parse_elements(cs@, cur as int)->Some_0;
            assert(elements_view(acc@) + p.0 =~= p.0);
        }
    }
    loop
        invariant
            n == cs@.len(),
            cs@ == s@,
            cur <= n,
            elements_step(cs@, i as int, elements_view(acc@), cur as int),
        decreases n - cur,
    {
        let (ms, j) = match parse_object_from(s, cs, cur) {
            Some(mj) => mj,
            None => {
                return None;
            },
        };
        let ghost prev_acc = elements_view(acc@);
        let ghost mv = members_view(ms@);
        let j2 = skip_ws_from(cs, j);
        if j2 < n && cs[j2] == ',' {
            let j3 = skip_ws_from(cs, j2 + 1);
            if j3 <= cur {
                return None;
            }
            acc.push(ms);
            proof {
                assert(elements_view(acc@) =~= prev_acc + seq![mv]);
                if parse_elements(cs@, j3 as int) is Some {
                    let p = parse_elements(cs@, j3 as int)->Some_0;
                    assert((prev_acc + seq![mv]) + p.0 =~= prev_acc + (seq![mv] + p.0));
                }
            }
            cur = j3;
        } else if j2 < n && cs[j2] == ']' {
            acc.push(ms);
            proof {
                assert(elements_view(acc@) =~= prev_acc + seq![mv]);
            }
            return Some((acc, j2 + 1));
        } else {
            return None;
        }
    }
}

/// Parse a whole document that is one array of flat objects, as
/// `parse_object_array_text` says: `None` exactly on input outside the
/// grammar.
pub fn parse_object_array_str(s: &str) -> (r: Option<Vec<Vec<JsonMember>>>)
    ensures
        match r {
            Some(es) => parse_object_array_text(s@) == Some(elements_view(es@)),
            None => parse_object_array_text(s@) is None,
        },
{
    let cs = crate::strutil::chars_of(s);
    let n: usize = cs.len();
    let i = skip_ws_from(&cs, 0);
    if i >= n || cs[i] != '[' {
        return None;
    }
    let j = skip_ws_from(&cs, i + 1);
    if j < n && cs[j] == ']' {
        if skip_ws_from(&cs, j + 1) == n {
            let empty: Vec<Vec<JsonMember>> = Vec::new();
            proof {
                assert(elements_view(empty@) =~= Seq::<Seq<(Seq<char>, JsonValue)>>::empty());
            }
            return Some(empty);
        } else {
            return None;
        }
    }
    match parse_elements_from(s, &cs, j) {
        Some((es, j2)) => {
            if skip_ws_from(&cs, j2) == n {
                Some(es)
            } else {
                None
            }
        },
        None => None,
    }
}

/// The first value bound to `key` among `ms`, in document order.
pub open spec fn lookup(ms: Seq<(Seq<char>, JsonValue)>, key: Seq<char>) -> Option<JsonValue>
    decreases ms.len(),
{
    if ms.len() == 0 {
        None
    } else if ms[0].0 == key {
        Some(ms[0].1)
    } else {
        lookup(ms.drop_first(), key)
    }
}

/// First value bound to `key` among the parsed members, as `lookup` says.
pub fn lookup_member<'a>(ms: &'a Vec<JsonMember>, key: &str) -> (r: Option<&'a JsonScalar>)
    ensures
        match r {
            Some(v) => lookup(members_view(ms@), key@) == Some(v@),
            None => lookup(members_view(ms@), key@) is None,
        },
{
    let mut i: usize = 0;
    proof {
        assert(members_view(ms@).skip(0) =~= members_view(ms@));
    }
    while i < ms.len()
        invariant
            i <= ms@.len(),
            lookup(members_view(ms@), key@) == lookup(
                members_view(ms@).skip(i as int),
                key@,
            ),
        decreases ms@.len() - i,
    {
        proof {
            assert(members_view(ms@).skip(i as int)[0] == ms@[i as int]@);
            assert(members_view(ms@).skip(i as int).drop_first() =~= members_view(ms@).skip(
                i + 1,
            ));
        }
        if crate::strutil::str_eq(ms[i].key.as_str(), key) {
            return Some(&ms[i].value);
        }
        i = i + 1;
    }
    proof {
        assert(members_view(ms@).skip(ms@.len() as int) =~= Seq::<
            (Seq<char>, JsonValue),
        >::empty());
    }
    None
}

} // verus!
