//! Trigger descriptors: the conditions under which a sleeping session
//! returns to pending, their JSON encoding, and their evaluation.

use vstd::prelude::*;
use crate::error::KenError;
use crate::jsontext::{
    dec_str, esc, ids_items, ids_lit, is_digit, is_ws, lemma_dec_str_digits, lemma_esc_plain,
    lemma_num_round_trip, lemma_str_body_round_trip, lemma_str_body_shrinks, lemma_ws_id,
    lemma_ws_shrinks, parse_str_body, parse_u64, plain_seq, push_dec, push_ids, skip_ws, sp_num,
    sp_str_body, sp_ws, str_lit,
};
use crate::session::SessionStatus;
use crate::strutil::{chars_eq_str, chars_of, contains_chars, contains_seq, string_from_chars};
use vstd::string::StringExecFns;

verus! {

/// A live trigger: the closed set of wake conditions.
#[derive(Debug, Clone, PartialEq, Eq)]
pub enum Trigger {
    AllComplete(Vec<String>),
    AnyComplete(Vec<String>),
    TimeoutSeconds(u64),
}

/// Mathematical model of a trigger.
pub enum TriggerV {
    AllComplete(Seq<Seq<char>>),
    AnyComplete(Seq<Seq<char>>),
    TimeoutSeconds(u64),
}

impl View for Trigger {
    type V = TriggerV;

    open spec fn view(&self) -> TriggerV {
        match self {
            Trigger::AllComplete(ids) => TriggerV::AllComplete(ids.deep_view()),
            Trigger::AnyComplete(ids) => TriggerV::AnyComplete(ids.deep_view()),
            Trigger::TimeoutSeconds(n) => TriggerV::TimeoutSeconds(*n),
        }
    }
}

/// A trigger as it stands in an agent request: either live, or the
/// placeholder form whose payload is the literal children token and is
/// resolved to the freshly minted child ids before persistence.
#[derive(Debug, Clone, PartialEq, Eq)]
pub enum TriggerTemplate {
    Live(Trigger),
    AllChildren,
    AnyChildren,
}

/// Mathematical model of a request trigger.
pub enum TriggerTemplateV {
    Live(TriggerV),
    AllChildren,
    AnyChildren,
}

impl View for TriggerTemplate {
    type V = TriggerTemplateV;

    open spec fn view(&self) -> TriggerTemplateV {
        match self {
            TriggerTemplate::Live(t) => TriggerTemplateV::Live(t@),
            TriggerTemplate::AllChildren => TriggerTemplateV::AllChildren,
            TriggerTemplate::AnyChildren => TriggerTemplateV::AnyChildren,
        }
    }
}

/// The placeholder token.
pub open spec fn children_token() -> Seq<char> {
    "__CHILDREN__"@
}

// ---------------------------------------------------------------------------
// Encoding
// ---------------------------------------------------------------------------

/// The JSON encoding of a trigger: a single-key object whose key is the
/// variant tag and whose value is the payload.
pub open spec fn trigger_json(t: TriggerV) -> Seq<char> {
    match t {
        TriggerV::AllComplete(ids) => "{\"all_complete\":"@ + ids_lit(ids) + "}"@,
        TriggerV::AnyComplete(ids) => "{\"any_complete\":"@ + ids_lit(ids) + "}"@,
        TriggerV::TimeoutSeconds(n) => "{\"timeout_seconds\":"@ + dec_str(n as int) + "}"@,
    }
}

/// The JSON encoding of a request trigger.
pub open spec fn template_json(t: TriggerTemplateV) -> Seq<char> {
    match t {
        TriggerTemplateV::Live(tr) => trigger_json(tr),
        TriggerTemplateV::AllChildren => "{\"all_complete\":\"__CHILDREN__\"}"@,
        TriggerTemplateV::AnyChildren => "{\"any_complete\":\"__CHILDREN__\"}"@,
    }
}

impl Trigger {
    /// Serializes the trigger to its JSON form.
    pub fn to_json(&self) -> (r: String)
        ensures
            r@ == trigger_json(self@),
    {
        let mut out: Vec<char>;
        match self {
            Trigger::AllComplete(ids) => {
                out = chars_of("{\"all_complete\":");
                push_ids(&mut out, ids);
                out.push('}');
            },
            Trigger::AnyComplete(ids) => {
                out = chars_of("{\"any_complete\":");
                push_ids(&mut out, ids);
                out.push('}');
            },
            Trigger::TimeoutSeconds(n) => {
                out = chars_of("{\"timeout_seconds\":");
                push_dec(&mut out, *n);
                out.push('}');
            },
        }
        proof {
            reveal_strlit("}");
            assert(out@ =~= trigger_json(self@));
        }
        string_from_chars(&out)
    }
}

impl TriggerTemplate {
    /// Serializes the request trigger to its JSON form; the placeholder
    /// forms keep the literal children token as their payload.
    pub fn to_json(&self) -> (r: String)
        ensures
            r@ == template_json(self@),
    {
        match self {
            TriggerTemplate::Live(t) => t.to_json(),
            TriggerTemplate::AllChildren => String::from_str("{\"all_complete\":\"__CHILDREN__\"}"),
            TriggerTemplate::AnyChildren => String::from_str("{\"any_complete\":\"__CHILDREN__\"}"),
        }
    }
}

// ---------------------------------------------------------------------------
// Parsing
// ---------------------------------------------------------------------------

/// Parse of the remaining items of an array of strings, after the first
/// item; `acc` holds the items already read.
pub open spec fn sp_ids_rest(s: Seq<char>, acc: Seq<Seq<char>>) -> Option<
    (Seq<Seq<char>>, Seq<char>),
>
    decreases s.len(),
    via sp_ids_rest_dec
{
    let s1 = sp_ws(s);
    if s1.len() > 0 && s1[0] == ']' {
        Some((acc, s1.drop_first()))
    } else if s1.len() > 0 && s1[0] == ',' {
        let s2 = sp_ws(s1.drop_first());
        if s2.len() > 0 && s2[0] == '"' {
            match sp_str_body(s2.drop_first()) {
                None => None,
                Some(p) => sp_ids_rest(p.1, acc.push(p.0)),
            }
        } else {
            None
        }
    } else {
        None
    }
}

#[via_fn]
proof fn sp_ids_rest_dec(s: Seq<char>, acc: Seq<Seq<char>>) {
    lemma_ws_shrinks(s);
    let s1 = sp_ws(s);
    if s1.len() > 0 && s1[0] != ']' && s1[0] == ',' {
        lemma_ws_shrinks(s1.drop_first());
        let s2 = sp_ws(s1.drop_first());
        if s2.len() > 0 && s2[0] == '"' {
            lemma_str_body_shrinks(s2.drop_first());
        }
    }
}

/// Parse of an array of strings, after the opening bracket.
pub open spec fn sp_ids_after(s: Seq<char>) -> Option<(Seq<Seq<char>>, Seq<char>)> {
    let s1 = sp_ws(s);
    if s1.len() > 0 && s1[0] == ']' {
        Some((Seq::empty(), s1.drop_first()))
    } else if s1.len() > 0 && s1[0] == '"' {
        match sp_str_body(s1.drop_first()) {
            None => None,
            Some(p) => sp_ids_rest(p.1, seq![p.0]),
        }
    } else {
        None
    }
}

pub proof fn lemma_ids_rest_shrinks(s: Seq<char>, acc: Seq<Seq<char>>)
    ensures
        sp_ids_rest(s, acc) matches Some(p) ==> p.1.len() < s.len(),
    decreases s.len(),
{
    lemma_ws_shrinks(s);
    let s1 = sp_ws(s);
    if s1.len() > 0 && s1[0] == ']' {
    } else if s1.len() > 0 && s1[0] == ',' {
        lemma_ws_shrinks(s1.drop_first());
        let s2 = sp_ws(s1.drop_first());
        if s2.len() > 0 && s2[0] == '"' {
            lemma_str_body_shrinks(s2.drop_first());
            match sp_str_body(s2.drop_first()) {
                None => {},
                Some(p) => {
                    lemma_ids_rest_shrinks(p.1, acc.push(p.0));
                },
            }
        }
    }
}

pub proof fn lemma_ids_after_shrinks(s: Seq<char>)
    ensures
        sp_ids_after(s) matches Some(p) ==> p.1.len() < s.len(),
{
    lemma_ws_shrinks(s);
    let s1 = sp_ws(s);
    if s1.len() > 0 && s1[0] != ']' && s1[0] == '"' {
        lemma_str_body_shrinks(s1.drop_first());
        match sp_str_body(s1.drop_first()) {
            None => {},
            Some(p) => {
                lemma_ids_rest_shrinks(p.1, seq![p.0]);
            },
        }
    }
}

/// Parse of the whole trigger object. Returns the request trigger and the
/// leftover input.
pub open spec fn sp_trigger(s: Seq<char>) -> Option<(TriggerTemplateV, Seq<char>)> {
    let s1 = sp_ws(s);
    if s1.len() > 0 && s1[0] == '{' {
        let s2 = sp_ws(s1.drop_first());
        if s2.len() > 0 && s2[0] == '"' {
            match sp_str_body(s2.drop_first()) {
                None => None,
                Some(kp) => {
                    let r2 = sp_ws(kp.1);
                    if r2.len() > 0 && r2[0] == ':' {
                        let r3 = sp_ws(r2.drop_first());
                        sp_trigger_payload(kp.0, r3)
                    } else {
                        None
                    }
                },
            }
        } else {
            None
        }
    } else {
        None
    }
}

/// Parse of the payload after the key and colon, then the closing brace.
pub open spec fn sp_trigger_payload(key: Seq<char>, r3: Seq<char>) -> Option<
    (TriggerTemplateV, Seq<char>),
> {
    if key == "all_complete"@ || key == "any_complete"@ {
        if r3.len() > 0 && r3[0] == '[' {
            match sp_ids_after(r3.drop_first()) {
                None => None,
                Some(ip) => {
                    let t = if key == "all_complete"@ {
                        TriggerTemplateV::Live(TriggerV::AllComplete(ip.0))
                    } else {
                        TriggerTemplateV::Live(TriggerV::AnyComplete(ip.0))
                    };
                    sp_close_obj(t, ip.1)
                },
            }
        } else if r3.len() > 0 && r3[0] == '"' {
            match sp_str_body(r3.drop_first()) {
                None => None,
                Some(sp) => {
                    if sp.0 == children_token() {
                        let t = if key == "all_complete"@ {
                            TriggerTemplateV::AllChildren
                        } else {
                            TriggerTemplateV::AnyChildren
                        };
                        sp_close_obj(t, sp.1)
                    } else {
                        None
                    }
                },
            }
        } else {
            None
        }
    } else if key == "timeout_seconds"@ {
        match sp_num(r3) {
            None => None,
            Some(np) => sp_close_obj(TriggerTemplateV::Live(TriggerV::TimeoutSeconds(np.0)), np.1),
        }
    } else {
        None
    }
}

/// Parse of the closing brace of a single-key object.
pub open spec fn sp_close_obj(t: TriggerTemplateV, r: Seq<char>) -> Option<
    (TriggerTemplateV, Seq<char>),
> {
    let r1 = sp_ws(r);
    if r1.len() > 0 && r1[0] == '}' {
        Some((t, r1.drop_first()))
    } else {
        None
    }
}

/// Decoding of a live trigger from JSON text: the text must hold no
/// occurrence of the placeholder token, parse in one of the closed shapes,
/// and have nothing but whitespace after the object.
pub open spec fn trigger_of_json(s: Seq<char>) -> Option<TriggerV> {
    if contains_seq(s, children_token()) {
        None
    } else {
        match sp_trigger(s) {
            Some(p) => match p.0 {
                TriggerTemplateV::Live(t) => {
                    if sp_ws(p.1).len() == 0 {
                        Some(t)
                    } else {
                        None
                    }
                },
                _ => None,
            },
            None => None,
        }
    }
}

/// Parses the items of a string array, the opening bracket already
/// consumed, starting at `i`.
pub fn parse_ids_after(v: &Vec<char>, i: usize) -> (r: Option<(Vec<String>, usize)>)
    requires
        i <= v@.len(),
    ensures
        match r {
            None => sp_ids_after(v@.skip(i as int)) is None,
            Some(p) => i <= p.1 <= v@.len() && sp_ids_after(v@.skip(i as int)) == Some(
                (p.0.deep_view(), v@.skip(p.1 as int)),
            ),
        },
{
    let n = v.len();
    let j1 = skip_ws(v, i);
    if j1 == n {
        return None;
    }
    let c = v[j1];
    if c == ']' {
        let out: Vec<String> = Vec::new();
        proof {
            assert(v@.skip(j1 as int).drop_first() =~= v@.skip(j1 + 1));
            assert(out.deep_view() =~= Seq::<Seq<char>>::empty());
        }
        return Some((out, j1 + 1));
    }
    if c != '"' {
        return None;
    }
    proof {
        assert(v@.skip(j1 as int).drop_first() =~= v@.skip(j1 + 1));
    }
    match parse_str_body(v, j1 + 1) {
        None => {
            return None;
        },
        Some((t, j2)) => {
            let mut acc: Vec<String> = Vec::new();
            acc.push(string_from_chars(&t));
            proof {
                assert(acc.deep_view() =~= seq![t@]);
            }
            let mut j = j2;
            loop
                invariant
                    i <= j <= v@.len(),
                    n == v@.len(),
                    sp_ids_after(v@.skip(i as int)) == sp_ids_rest(
                        v@.skip(j as int),
                        acc.deep_view(),
                    ),
                decreases v@.len() - j,
            {
                let j3 = skip_ws(v, j);
                if j3 == n {
                    return None;
                }
                let c2 = v[j3];
                if c2 == ']' {
                    proof {
                        assert(v@.skip(j3 as int).drop_first() =~= v@.skip(j3 + 1));
                    }
                    return Some((acc, j3 + 1));
                }
                if c2 != ',' {
                    return None;
                }
                proof {
                    assert(v@.skip(j3 as int).drop_first() =~= v@.skip(j3 + 1));
                }
                let j4 = skip_ws(v, j3 + 1);
                if j4 == n {
                    return None;
                }
                if v[j4] != '"' {
                    return None;
                }
                proof {
                    assert(v@.skip(j4 as int).drop_first() =~= v@.skip(j4 + 1));
                }
                match parse_str_body(v, j4 + 1) {
                    None => {
                        return None;
                    },
                    Some((t2, j5)) => {
                        let ghost dv0 = acc.deep_view();
                        acc.push(string_from_chars(&t2));
                        proof {
                            assert(acc.deep_view() =~= dv0.push(t2@));
                        }
                        j = j5;
                    },
                }
            }
        },
    }
}

/// Parses a whole trigger object starting at `i`.
pub fn parse_trigger_at(v: &Vec<char>, i: usize) -> (r: Option<(TriggerTemplate, usize)>)
    requires
        i <= v@.len(),
    ensures
        match r {
            None => sp_trigger(v@.skip(i as int)) is None,
            Some(p) => i <= p.1 <= v@.len() && sp_trigger(v@.skip(i as int)) == Some(
                (p.0@, v@.skip(p.1 as int)),
            ),
        },
{
    let n = v.len();
    let j1 = skip_ws(v, i);
    if j1 == n {
        return None;
    }
    if v[j1] != '{' {
        return None;
    }
    proof {
        assert(v@.skip(j1 as int).drop_first() =~= v@.skip(j1 + 1));
    }
    let j2 = skip_ws(v, j1 + 1);
    if j2 == n {
        return None;
    }
    if v[j2] != '"' {
        return None;
    }
    proof {
        assert(v@.skip(j2 as int).drop_first() =~= v@.skip(j2 + 1));
    }
    let (key, k1) = match parse_str_body(v, j2 + 1) {
        None => {
            return None;
        },
        Some(p) => p,
    };
    let k2 = skip_ws(v, k1);
    if k2 == n {
        return None;
    }
    if v[k2] != ':' {
        return None;
    }
    proof {
        assert(v@.skip(k2 as int).drop_first() =~= v@.skip(k2 + 1));
    }
    let k3 = skip_ws(v, k2 + 1);
    let all = chars_eq_str(&key, "all_complete");
    let any = chars_eq_str(&key, "any_complete");
    if all || any {
        if k3 == n {
            return None;
        }
        let c = v[k3];
        if c == '[' {
            proof {
                assert(v@.skip(k3 as int).drop_first() =~= v@.skip(k3 + 1));
            }
            match parse_ids_after(v, k3 + 1) {
                None => {
                    return None;
                },
                Some((ids, k4)) => {
                    let t = if all {
                        TriggerTemplate::Live(Trigger::AllComplete(ids))
                    } else {
                        TriggerTemplate::Live(Trigger::AnyComplete(ids))
                    };
                    close_obj(v, k4, t)
                },
            }
        } else if c == '"' {
            proof {
                assert(v@.skip(k3 as int).drop_first() =~= v@.skip(k3 + 1));
            }
            match parse_str_body(v, k3 + 1) {
                None => {
                    return None;
                },
                Some((payload, k4)) => {
                    if chars_eq_str(&payload, "__CHILDREN__") {
                        let t = if all {
                            TriggerTemplate::AllChildren
                        } else {
                            TriggerTemplate::AnyChildren
                        };
                        close_obj(v, k4, t)
                    } else {
                        None
                    }
                },
            }
        } else {
            None
        }
    } else if chars_eq_str(&key, "timeout_seconds") {
        match parse_u64(v, k3) {
            None => {
                return None;
            },
            Some((num, k4)) => close_obj(v, k4, TriggerTemplate::Live(Trigger::TimeoutSeconds(num))),
        }
    } else {
        None
    }
}

/// Parses the closing brace of a single-key object.
fn close_obj(v: &Vec<char>, i: usize, t: TriggerTemplate) -> (r: Option<(TriggerTemplate, usize)>)
    requires
        i <= v@.len(),
    ensures
        match r {
            None => sp_close_obj(t@, v@.skip(i as int)) is None,
            Some(p) => i <= p.1 <= v@.len() && p.0 == t && sp_close_obj(t@, v@.skip(i as int))
                == Some((p.0@, v@.skip(p.1 as int))),
        },
{
    let n = v.len();
    let j = skip_ws(v, i);
    if j == n {
        return None;
    }
    if v[j] != '}' {
        return None;
    }
    proof {
        assert(v@.skip(j as int).drop_first() =~= v@.skip(j + 1));
    }
    Some((t, j + 1))
}

impl Trigger {
    /// Parses a live trigger from JSON text. Text still holding the
    /// placeholder token is not a live trigger and is rejected.
    pub fn from_json(json: &str) -> (r: Result<Trigger, KenError>)
        ensures
            r matches Ok(t) ==> trigger_of_json(json@) == Some(t@),
            r is Err ==> trigger_of_json(json@) is None,
    {
        let v = chars_of(json);
        let token = chars_of("__CHILDREN__");
        if contains_chars(&v, &token) {
            return Err(
                KenError::Json(String::from_str("trigger still holds the children placeholder")),
            );
        }
        proof {
            assert(v@.skip(0) =~= v@);
        }
        match parse_trigger_at(&v, 0) {
            None => Err(KenError::Json(String::from_str("not a recognized trigger"))),
            Some((t, j)) => {
                let j2 = skip_ws(&v, j);
                if j2 != v.len() {
                    return Err(KenError::Json(String::from_str("trailing text after trigger")));
                }
                match t {
                    TriggerTemplate::Live(tr) => Ok(tr),
                    _ => Err(
                        KenError::Json(
                            String::from_str("trigger still holds the children placeholder"),
                        ),
                    ),
                }
            },
        }
    }
}

// ---------------------------------------------------------------------------
// Round trip: parsing a serialized trigger
// ---------------------------------------------------------------------------

/// The printed form of the items after the first: a comma and a string
/// literal for each.
pub open spec fn tail_items(ids: Seq<Seq<char>>) -> Seq<char>
    decreases ids.len(),
{
    if ids.len() == 0 {
        Seq::empty()
    } else {
        seq![','] + str_lit(ids[0]) + tail_items(ids.drop_first())
    }
}

proof fn lemma_items_decomp(ids: Seq<Seq<char>>)
    requires
        ids.len() > 0,
    ensures
        ids_items(ids) == str_lit(ids[0]) + tail_items(ids.drop_first()),
    decreases ids.len(),
{
    if ids.len() == 1 {
        assert(tail_items(ids.drop_first()) == Seq::<char>::empty());
        assert(str_lit(ids[0]) + Seq::<char>::empty() =~= str_lit(ids[0]));
    } else {
        lemma_items_decomp(ids.drop_first());
        assert(ids.drop_first()[0] == ids[1]);
        assert(str_lit(ids[0]) + seq![','] + (str_lit(ids[1]) + tail_items(
            ids.drop_first().drop_first(),
        )) =~= str_lit(ids[0]) + (seq![','] + str_lit(ids.drop_first()[0]) + tail_items(
            ids.drop_first().drop_first(),
        )));
    }
}

proof fn lemma_ids_rest_round(ids2: Seq<Seq<char>>, acc: Seq<Seq<char>>, rest: Seq<char>)
    ensures
        sp_ids_rest(tail_items(ids2) + seq![']'] + rest, acc) == Some((acc + ids2, rest)),
    decreases ids2.len(),
{
    let s = tail_items(ids2) + seq![']'] + rest;
    if ids2.len() == 0 {
        assert(s =~= seq![']'] + rest);
        assert(s[0] == ']');
        assert(!is_ws(']'));
        lemma_ws_id(s);
        assert(s.drop_first() =~= rest);
        assert(acc + ids2 =~= acc);
    } else {
        let h = ids2[0];
        let after = tail_items(ids2.drop_first()) + seq![']'] + rest;
        assert(s =~= seq![','] + (str_lit(h) + after));
        assert(s[0] == ',');
        assert(!is_ws(','));
        lemma_ws_id(s);
        let d1 = s.drop_first();
        assert(d1 =~= str_lit(h) + after);
        assert(d1[0] == '"');
        assert(!is_ws('"'));
        lemma_ws_id(d1);
        assert(d1.drop_first() =~= esc(h) + seq!['"'] + after);
        lemma_str_body_round_trip(h, after);
        lemma_ids_rest_round(ids2.drop_first(), acc.push(h), rest);
        assert(acc.push(h) + ids2.drop_first() =~= acc + ids2);
    }
}

proof fn lemma_ids_after_round(ids: Seq<Seq<char>>, rest: Seq<char>)
    ensures
        sp_ids_after(ids_items(ids) + seq![']'] + rest) == Some((ids, rest)),
{
    let s = ids_items(ids) + seq![']'] + rest;
    if ids.len() == 0 {
        assert(s =~= seq![']'] + rest);
        assert(s[0] == ']');
        assert(!is_ws(']'));
        lemma_ws_id(s);
        assert(s.drop_first() =~= rest);
        assert(Seq::<Seq<char>>::empty() =~= ids);
    } else {
        lemma_items_decomp(ids);
        let after = tail_items(ids.drop_first()) + seq![']'] + rest;
        assert(s =~= seq!['"'] + (esc(ids[0]) + seq!['"'] + after));
        assert(s[0] == '"');
        assert(!is_ws('"'));
        lemma_ws_id(s);
        assert(s.drop_first() =~= esc(ids[0]) + seq!['"'] + after);
        lemma_str_body_round_trip(ids[0], after);
        lemma_ids_rest_round(ids.drop_first(), seq![ids[0]], rest);
        assert(seq![ids[0]] + ids.drop_first() =~= ids);
    }
}

proof fn lemma_trigger_round_ids(key: Seq<char>, ids: Seq<Seq<char>>)
    requires
        key == "all_complete"@ || key == "any_complete"@,
    ensures
        sp_trigger(seq!['{', '"'] + key + seq!['"', ':'] + ids_lit(ids) + seq!['}']) == Some(
            (
                if key == "all_complete"@ {
                    TriggerTemplateV::Live(TriggerV::AllComplete(ids))
                } else {
                    TriggerTemplateV::Live(TriggerV::AnyComplete(ids))
                },
                Seq::<char>::empty(),
            ),
        ),
{
    reveal_strlit("all_complete");
    reveal_strlit("any_complete");
    assert(plain_seq(key));
    lemma_esc_plain(key);
    let s = seq!['{', '"'] + key + seq!['"', ':'] + ids_lit(ids) + seq!['}'];
    assert(s[0] == '{');
    assert(!is_ws('{'));
    lemma_ws_id(s);
    let d1 = s.drop_first();
    let rest1 = seq![':'] + (ids_lit(ids) + seq!['}']);
    assert(d1 =~= seq!['"'] + (esc(key) + seq!['"'] + rest1));
    assert(d1[0] == '"');
    assert(!is_ws('"'));
    lemma_ws_id(d1);
    assert(d1.drop_first() =~= esc(key) + seq!['"'] + rest1);
    lemma_str_body_round_trip(key, rest1);
    assert(rest1[0] == ':');
    assert(!is_ws(':'));
    lemma_ws_id(rest1);
    let r3 = rest1.drop_first();
    assert(r3 =~= ids_lit(ids) + seq!['}']);
    assert(ids_lit(ids)[0] == '[');
    assert(r3[0] == '[');
    assert(!is_ws('['));
    lemma_ws_id(r3);
    assert(r3.drop_first() =~= ids_items(ids) + seq![']'] + seq!['}']);
    lemma_ids_after_round(ids, seq!['}']);
    assert(!is_ws('}'));
    lemma_ws_id(seq!['}']);
    assert(seq!['}'][0] == '}');
    assert(seq!['}'].drop_first() =~= Seq::<char>::empty());
    assert("all_complete"@ != "any_complete"@) by {
        assert("all_complete"@[1] != "any_complete"@[1]);
    }
}

proof fn lemma_trigger_round_timeout(n: u64)
    ensures
        sp_trigger(seq!['{', '"'] + "timeout_seconds"@ + seq!['"', ':'] + dec_str(n as int) + seq!['}'])
            == Some(
            (TriggerTemplateV::Live(TriggerV::TimeoutSeconds(n)), Seq::<char>::empty()),
        ),
{
    reveal_strlit("timeout_seconds");
    reveal_strlit("all_complete");
    reveal_strlit("any_complete");
    let key = "timeout_seconds"@;
    assert(plain_seq(key));
    lemma_esc_plain(key);
    let s = seq!['{', '"'] + key + seq!['"', ':'] + dec_str(n as int) + seq!['}'];
    assert(s[0] == '{');
    assert(!is_ws('{'));
    lemma_ws_id(s);
    let d1 = s.drop_first();
    let rest1 = seq![':'] + (dec_str(n as int) + seq!['}']);
    assert(d1 =~= seq!['"'] + (esc(key) + seq!['"'] + rest1));
    assert(d1[0] == '"');
    assert(!is_ws('"'));
    lemma_ws_id(d1);
    assert(d1.drop_first() =~= esc(key) + seq!['"'] + rest1);
    lemma_str_body_round_trip(key, rest1);
    assert(rest1[0] == ':');
    assert(!is_ws(':'));
    lemma_ws_id(rest1);
    let r3 = rest1.drop_first();
    assert(r3 =~= dec_str(n as int) + seq!['}']);
    lemma_dec_str_digits(n as int);
    assert(r3[0] == dec_str(n as int)[0]);
    assert(is_digit(r3[0]));
    assert(!is_ws(r3[0]));
    lemma_ws_id(r3);
    assert(key != "all_complete"@) by {
        assert(key.len() != "all_complete"@.len());
    }
    assert(key != "any_complete"@) by {
        assert(key.len() != "any_complete"@.len());
    }
    assert(!is_digit('}'));
    lemma_num_round_trip(n, seq!['}']);
    assert(!is_ws('}'));
    lemma_ws_id(seq!['}']);
    assert(seq!['}'][0] == '}');
    assert(seq!['}'].drop_first() =~= Seq::<char>::empty());
}

/// Trigger round trip: parsing the serialized form of a trigger returns
/// the same trigger, for every trigger whose serialized form does not hold
/// the placeholder token (a non-placeholder trigger).
pub proof fn lemma_trigger_round_trip(t: TriggerV)
    requires
        !contains_seq(trigger_json(t), children_token()),
    ensures
        trigger_of_json(trigger_json(t)) == Some(t),
{
    match t {
        TriggerV::AllComplete(ids) => {
            reveal_strlit("{\"all_complete\":");
            reveal_strlit("all_complete");
            reveal_strlit("}");
            assert("{\"all_complete\":"@ =~= seq!['{', '"'] + "all_complete"@ + seq!['"', ':']);
            assert(trigger_json(t) =~= seq!['{', '"'] + "all_complete"@ + seq!['"', ':'] + ids_lit(
                ids,
            ) + seq!['}']);
            lemma_trigger_round_ids("all_complete"@, ids);
        },
        TriggerV::AnyComplete(ids) => {
            reveal_strlit("{\"any_complete\":");
            reveal_strlit("any_complete");
            reveal_strlit("all_complete");
            reveal_strlit("}");
            assert("{\"any_complete\":"@ =~= seq!['{', '"'] + "any_complete"@ + seq!['"', ':']);
            assert(trigger_json(t) =~= seq!['{', '"'] + "any_complete"@ + seq!['"', ':'] + ids_lit(
                ids,
            ) + seq!['}']);
            lemma_trigger_round_ids("any_complete"@, ids);
            assert("all_complete"@ != "any_complete"@) by {
                assert("all_complete"@[1] != "any_complete"@[1]);
            }
        },
        TriggerV::TimeoutSeconds(n) => {
            reveal_strlit("{\"timeout_seconds\":");
            reveal_strlit("timeout_seconds");
            reveal_strlit("}");
            assert("{\"timeout_seconds\":"@ =~= seq!['{', '"'] + "timeout_seconds"@ + seq![
                '"',
                ':',
            ]);
            assert(trigger_json(t) =~= seq!['{', '"'] + "timeout_seconds"@ + seq!['"', ':']
                + dec_str(n as int) + seq!['}']);
            lemma_trigger_round_timeout(n);
        },
    }
}

// ---------------------------------------------------------------------------
// Evaluation
// ---------------------------------------------------------------------------

/// A snapshot of session statuses for trigger evaluation: an association
/// list from session id to status; the earliest entry for an id wins.
pub struct StatusSnapshot {
    pub entries: Vec<(String, SessionStatus)>,
}

impl View for StatusSnapshot {
    type V = Seq<(Seq<char>, SessionStatus)>;

    open spec fn view(&self) -> Seq<(Seq<char>, SessionStatus)> {
        Seq::new(self.entries@.len(), |k: int| (self.entries@[k].0@, self.entries@[k].1))
    }
}

/// The status a snapshot gives an id, if any.
pub open spec fn snap_lookup(s: Seq<(Seq<char>, SessionStatus)>, id: Seq<char>) -> Option<
    SessionStatus,
>
    decreases s.len(),
{
    if s.len() == 0 {
        None
    } else if s[0].0 == id {
        Some(s[0].1)
    } else {
        snap_lookup(s.drop_first(), id)
    }
}

impl StatusSnapshot {
    /// The empty snapshot.
    pub fn new() -> (r: Self)
        ensures
            r@ == Seq::<(Seq<char>, SessionStatus)>::empty(),
    {
        let r = StatusSnapshot { entries: Vec::new() };
        proof {
            assert(r@ =~= Seq::<(Seq<char>, SessionStatus)>::empty());
        }
        r
    }

    /// Records the status of one session.
    pub fn push(&mut self, id: String, status: SessionStatus)
        ensures
            final(self)@ == old(self)@.push((id@, status)),
    {
        let ghost pre = self@;
        self.entries.push((id, status));
        proof {
            assert(self@ =~= pre.push((id@, status)));
        }
    }

    /// Looks up the status recorded for an id.
    pub fn get(&self, id: &str) -> (r: Option<SessionStatus>)
        ensures
            r == snap_lookup(self@, id@),
    {
        let n = self.entries.len();
        let mut k: usize = 0;
        proof {
            assert(self@.skip(0) =~= self@);
        }
        while k < n
            invariant
                n == self.entries@.len(),
                k <= n,
                snap_lookup(self@, id@) == snap_lookup(self@.skip(k as int), id@),
            decreases n - k,
        {
            proof {
                assert(self@.skip(k as int)[0] == self@[k as int]);
                assert(self@.skip(k as int).drop_first() =~= self@.skip(k + 1));
            }
            if crate::strutil::str_eq(self.entries[k].0.as_str(), id) {
                return Some(self.entries[k].1);
            }
            k += 1;
        }
        proof {
            assert(self@.skip(k as int).len() == 0);
        }
        None
    }
}

/// Satisfaction of a trigger against a snapshot: `all_complete` holds when
/// every referenced id is recorded complete (ids absent from the snapshot
/// count as not complete), `any_complete` when at least one is, and
/// `timeout_seconds(n)` when at least `n` seconds separate the reference
/// time from now.
pub open spec fn trigger_sat(
    t: TriggerV,
    snap: Seq<(Seq<char>, SessionStatus)>,
    now: int,
    reference: Option<int>,
) -> bool {
    match t {
        TriggerV::AllComplete(ids) => forall|k: int|
            0 <= k < ids.len() ==> snap_lookup(snap, #[trigger] ids[k]) == Some(
                SessionStatus::Complete,
            ),
        TriggerV::AnyComplete(ids) => exists|k: int|
            0 <= k < ids.len() && snap_lookup(snap, #[trigger] ids[k]) == Some(
                SessionStatus::Complete,
            ),
        TriggerV::TimeoutSeconds(n) => reference matches Some(r) && now - r >= n,
    }
}

impl Trigger {
    /// Evaluates the trigger against a snapshot of session statuses.
    /// `now_secs` is the current time and `ref_secs` the session's
    /// reference time (its `updated_at` at the moment it went to sleep),
    /// both in seconds; a timeout trigger with no reference time is not
    /// satisfied. Evaluation reads nothing but its arguments.
    pub fn is_satisfied(&self, snap: &StatusSnapshot, now_secs: i64, ref_secs: Option<i64>) -> (r:
        bool)
        ensures
            r == trigger_sat(
                self@,
                snap@,
                now_secs as int,
                match ref_secs {
                    Some(x) => Some(x as int),
                    None => None,
                },
            ),
    {
        match self {
            Trigger::AllComplete(ids) => {
                proof {
                    assert(self@ == TriggerV::AllComplete(ids.deep_view()));
                }
                let n = ids.len();
                let mut k: usize = 0;
                while k < n
                    invariant
                        self@ == TriggerV::AllComplete(ids.deep_view()),
                        n == ids@.len(),
                        k <= n,
                        forall|t2: int|
                            0 <= t2 < k ==> snap_lookup(snap@, #[trigger] ids.deep_view()[t2])
                                == Some(SessionStatus::Complete),
                    decreases n - k,
                {
                    proof {
                        assert(ids.deep_view().len() == ids@.len());
                        assert(ids.deep_view()[k as int] == ids@[k as int]@);
                    }
                    let st = snap.get(ids[k].as_str());
                    match st {
                        Some(SessionStatus::Complete) => {},
                        _ => {
                            proof {
                                assert(snap_lookup(snap@, ids.deep_view()[k as int]) != Some(
                                    SessionStatus::Complete,
                                ));
                            }
                            return false;
                        },
                    }
                    k += 1;
                }
                proof {
                    assert(ids.deep_view().len() == ids@.len());
                }
                true
            },
            Trigger::AnyComplete(ids) => {
                proof {
                    assert(self@ == TriggerV::AnyComplete(ids.deep_view()));
                }
                let n = ids.len();
                let mut k: usize = 0;
                while k < n
                    invariant
                        self@ == TriggerV::AnyComplete(ids.deep_view()),
                        n == ids@.len(),
                        k <= n,
                        forall|t2: int|
                            0 <= t2 < k ==> snap_lookup(snap@, #[trigger] ids.deep_view()[t2])
                                != Some(SessionStatus::Complete),
                    decreases n - k,
                {
                    proof {
                        assert(ids.deep_view().len() == ids@.len());
                        assert(ids.deep_view()[k as int] == ids@[k as int]@);
                    }
                    let st = snap.get(ids[k].as_str());
                    match st {
                        Some(SessionStatus::Complete) => {
                            proof {
                                assert(snap_lookup(snap@, ids.deep_view()[k as int]) == Some(
                                    SessionStatus::Complete,
                                ));
                            }
                            return true;
                        },
                        _ => {},
                    }
                    k += 1;
                }
                proof {
                    assert(ids.deep_view().len() == ids@.len());
                }
                false
            },
            Trigger::TimeoutSeconds(n) => {
                match ref_secs {
                    None => false,
                    Some(r0) => (now_secs as i128) - (r0 as i128) >= (*n as i128),
                }
            },
        }
    }
}


/// Parse of a string value: optional whitespace, then a quoted string.
pub open spec fn sp_string_value(s: Seq<char>) -> Option<(Seq<char>, Seq<char>)> {
    let s1 = sp_ws(s);
    if s1.len() > 0 && s1[0] == '"' {
        sp_str_body(s1.drop_first())
    } else {
        None
    }
}

pub proof fn lemma_string_value_shrinks(s: Seq<char>)
    ensures
        sp_string_value(s) matches Some(p) ==> p.1.len() < s.len(),
{
    lemma_ws_shrinks(s);
    let s1 = sp_ws(s);
    if s1.len() > 0 && s1[0] == '"' {
        lemma_str_body_shrinks(s1.drop_first());
    }
}

/// Parses a string value starting at `i`.
pub fn parse_str_value(v: &Vec<char>, i: usize) -> (r: Option<(String, usize)>)
    requires
        i <= v@.len(),
    ensures
        match r {
            None => sp_string_value(v@.skip(i as int)) is None,
            Some(p) => i < p.1 <= v@.len() && sp_string_value(v@.skip(i as int)) == Some(
                (p.0@, v@.skip(p.1 as int)),
            ),
        },
{
    let n = v.len();
    let j = skip_ws(v, i);
    if j == n {
        return None;
    }
    if v[j] != '"' {
        return None;
    }
    proof {
        assert(v@.skip(j as int).drop_first() =~= v@.skip(j + 1));
    }
    match parse_str_body(v, j + 1) {
        None => None,
        Some((t, j2)) => Some((string_from_chars(&t), j2)),
    }
}

pub proof fn lemma_close_shrinks(t: TriggerTemplateV, r: Seq<char>)
    ensures
        sp_close_obj(t, r) matches Some(p) ==> p.1.len() < r.len(),
{
    lemma_ws_shrinks(r);
}

pub proof fn lemma_payload_shrinks(key: Seq<char>, r3: Seq<char>)
    ensures
        sp_trigger_payload(key, r3) matches Some(p) ==> p.1.len() < r3.len(),
{
    if key == "all_complete"@ || key == "any_complete"@ {
        if r3.len() > 0 && r3[0] == '[' {
            lemma_ids_after_shrinks(r3.drop_first());
            match sp_ids_after(r3.drop_first()) {
                None => {},
                Some(ip) => {
                    let t = if key == "all_complete"@ {
                        TriggerTemplateV::Live(TriggerV::AllComplete(ip.0))
                    } else {
                        TriggerTemplateV::Live(TriggerV::AnyComplete(ip.0))
                    };
                    lemma_close_shrinks(t, ip.1);
                },
            }
        } else if r3.len() > 0 && r3[0] == '"' {
            lemma_str_body_shrinks(r3.drop_first());
            match sp_str_body(r3.drop_first()) {
                None => {},
                Some(sp) => {
                    let t = if key == "all_complete"@ {
                        TriggerTemplateV::AllChildren
                    } else {
                        TriggerTemplateV::AnyChildren
                    };
                    lemma_close_shrinks(t, sp.1);
                },
            }
        }
    } else if key == "timeout_seconds"@ {
        match sp_num(r3) {
            None => {},
            Some(np) => {
                crate::jsontext::lemma_num_rec_shrinks(r3, 0);
                lemma_close_shrinks(TriggerTemplateV::Live(TriggerV::TimeoutSeconds(np.0)), np.1);
            },
        }
    }
}

/// A successful trigger parse consumes at least the opening brace.
pub proof fn lemma_trigger_shrinks(s: Seq<char>)
    ensures
        sp_trigger(s) matches Some(p) ==> p.1.len() < s.len(),
{
    lemma_ws_shrinks(s);
    let s1 = sp_ws(s);
    if s1.len() > 0 && s1[0] == '{' {
        lemma_ws_shrinks(s1.drop_first());
        let s2 = sp_ws(s1.drop_first());
        if s2.len() > 0 && s2[0] == '"' {
            lemma_str_body_shrinks(s2.drop_first());
            match sp_str_body(s2.drop_first()) {
                None => {},
                Some(kp) => {
                    lemma_ws_shrinks(kp.1);
                    let r2 = sp_ws(kp.1);
                    if r2.len() > 0 && r2[0] == ':' {
                        lemma_ws_shrinks(r2.drop_first());
                        let r3 = sp_ws(r2.drop_first());
                        lemma_payload_shrinks(kp.0, r3);
                    }
                },
            }
        }
    }
}


/// A looked-up status comes from an entry of the snapshot.
pub proof fn lemma_snap_lookup_entry(s: Seq<(Seq<char>, SessionStatus)>, x: Seq<char>)
    ensures
        snap_lookup(s, x) matches Some(v) ==> exists|e: int|
            0 <= e < s.len() && (#[trigger] s[e]).0 == x && s[e].1 == v,
    decreases s.len(),
{
    if s.len() == 0 {
    } else if s[0].0 == x {
    } else {
        lemma_snap_lookup_entry(s.drop_first(), x);
        if snap_lookup(s, x) is Some {
            let e = choose|e: int|
                0 <= e < s.drop_first().len() && (#[trigger] s.drop_first()[e]).0 == x
                    && s.drop_first()[e].1 == snap_lookup(s, x)->0;
            assert(s[e + 1] == s.drop_first()[e]);
        }
    }
}

/// Appending an entry changes no lookup that already resolves, and
/// resolves the appended id when nothing earlier did.
pub proof fn lemma_snap_lookup_push(
    s: Seq<(Seq<char>, SessionStatus)>,
    entry: (Seq<char>, SessionStatus),
    x: Seq<char>,
)
    ensures
        snap_lookup(s.push(entry), x) == (if snap_lookup(s, x) is Some {
            snap_lookup(s, x)
        } else if entry.0 == x {
            Some(entry.1)
        } else {
            None
        }),
    decreases s.len(),
{
    if s.len() == 0 {
        assert(s.push(entry) =~= seq![entry]);
        assert(seq![entry].drop_first() =~= Seq::<(Seq<char>, SessionStatus)>::empty());
    } else {
        assert(s.push(entry).drop_first() =~= s.drop_first().push(entry));
        assert(s.push(entry)[0] == s[0]);
        lemma_snap_lookup_push(s.drop_first(), entry, x);
    }
}

} // verus!
