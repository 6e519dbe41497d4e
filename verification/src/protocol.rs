//! The agent protocol: requests an agent sends, the response envelope the
//! coordinator answers with, and placeholder resolution on serialized
//! triggers.

use vstd::prelude::*;
use crate::error::KenError;
use crate::jsontext::{
    ids_items, ids_lit, lemma_ws_shrinks, push_ids, push_json_string, skip_ws, sp_ws, str_lit,
};
use crate::strutil::{
    chars_eq_str, chars_of, contains_seq, is_at, lemma_replace_none, lemma_replace_prefix,
    replace_all, replace_chars, string_from_chars,
};
use crate::trigger::{
    parse_str_value, parse_trigger_at, sp_string_value, sp_trigger, TriggerTemplate,
    TriggerTemplateV,
};

verus! {

// ---------------------------------------------------------------------------
// Data
// ---------------------------------------------------------------------------

/// Specification of a child session to spawn.
#[derive(Debug, Clone, PartialEq, Eq)]
pub struct ChildSpec {
    pub ken: String,
    pub task: String,
}

/// Mathematical model of a child specification.
pub struct ChildSpecV {
    pub ken: Seq<char>,
    pub task: Seq<char>,
}

impl View for ChildSpec {
    type V = ChildSpecV;

    open spec fn view(&self) -> ChildSpecV {
        ChildSpecV { ken: self.ken@, task: self.task@ }
    }
}

impl DeepView for ChildSpec {
    type V = ChildSpecV;

    open spec fn deep_view(&self) -> ChildSpecV {
        self.view()
    }
}

/// A request from an agent: the closed set of shapes.
#[derive(Debug, Clone, PartialEq, Eq)]
pub enum AgentRequest {
    Complete { session_id: String, result: String },
    SpawnAndSleep {
        session_id: String,
        children: Vec<ChildSpec>,
        trigger: TriggerTemplate,
        checkpoint: String,
    },
    Sleep { session_id: String, trigger: TriggerTemplate, checkpoint: String },
}

/// Mathematical model of an agent request.
pub enum AgentRequestV {
    Complete { session_id: Seq<char>, result: Seq<char> },
    SpawnAndSleep {
        session_id: Seq<char>,
        children: Seq<ChildSpecV>,
        trigger: TriggerTemplateV,
        checkpoint: Seq<char>,
    },
    Sleep { session_id: Seq<char>, trigger: TriggerTemplateV, checkpoint: Seq<char> },
}

impl View for AgentRequest {
    type V = AgentRequestV;

    open spec fn view(&self) -> AgentRequestV {
        match self {
            AgentRequest::Complete { session_id, result } => AgentRequestV::Complete {
                session_id: session_id@,
                result: result@,
            },
            AgentRequest::SpawnAndSleep { session_id, children, trigger, checkpoint } => {
                AgentRequestV::SpawnAndSleep {
                    session_id: session_id@,
                    children: children.deep_view(),
                    trigger: trigger@,
                    checkpoint: checkpoint@,
                }
            },
            AgentRequest::Sleep { session_id, trigger, checkpoint } => AgentRequestV::Sleep {
                session_id: session_id@,
                trigger: trigger@,
                checkpoint: checkpoint@,
            },
        }
    }
}

/// The response envelope the coordinator answers an agent with.
#[derive(Debug, Clone, PartialEq, Eq)]
pub struct AgentResponse {
    pub ok: bool,
    pub data: Option<Vec<String>>,
    pub error: Option<String>,
}

/// Mathematical model of a response: `data`, when present, carries the
/// minted child ids.
pub struct AgentResponseV {
    pub ok: bool,
    pub data: Option<Seq<Seq<char>>>,
    pub error: Option<Seq<char>>,
}

impl View for AgentResponse {
    type V = AgentResponseV;

    open spec fn view(&self) -> AgentResponseV {
        AgentResponseV {
            ok: self.ok,
            data: match self.data {
                Some(ids) => Some(ids.deep_view()),
                None => None,
            },
            error: match self.error {
                Some(e) => Some(e@),
                None => None,
            },
        }
    }
}

impl AgentResponse {
    /// A success envelope, optionally carrying minted child ids.
    pub fn success(data: Option<Vec<String>>) -> (r: Self)
        ensures
            r@.ok == true,
            r@.data == (match data {
                Some(ids) => Some(ids.deep_view()),
                None => None::<Seq<Seq<char>>>,
            }),
            r@.error is None,
    {
        AgentResponse { ok: true, data, error: None }
    }

    /// A protocol-error envelope carrying a message.
    pub fn error(msg: &str) -> (r: Self)
        ensures
            r@.ok == false,
            r@.data is None,
            r@.error == Some(msg@),
    {
        AgentResponse { ok: false, data: None, error: Some(msg.to_owned()) }
    }
}

/// The JSON form of a response envelope: `ok` first, then `data` carrying
/// the children array when present, then `error` when present.
pub open spec fn response_json(r: AgentResponseV) -> Seq<char> {
    "{\"ok\":"@ + (if r.ok {
        "true"@
    } else {
        "false"@
    }) + (match r.data {
        Some(ids) => ",\"data\":{\"children\":"@ + ids_lit(ids) + "}"@,
        None => Seq::<char>::empty(),
    }) + (match r.error {
        Some(e) => ",\"error\":"@ + str_lit(e),
        None => Seq::<char>::empty(),
    }) + "}"@
}

impl AgentResponse {
    /// Serializes the envelope.
    pub fn to_json(&self) -> (r: String)
        ensures
            r@ == response_json(self@),
    {
        let mut out = chars_of("{\"ok\":");
        let mut word = if self.ok {
            chars_of("true")
        } else {
            chars_of("false")
        };
        out.append(&mut word);
        match &self.data {
            Some(ids) => {
                let mut lit = chars_of(",\"data\":{\"children\":");
                out.append(&mut lit);
                push_ids(&mut out, ids);
                let mut close = chars_of("}");
                out.append(&mut close);
            },
            None => {},
        }
        match &self.error {
            Some(e) => {
                let mut lit = chars_of(",\"error\":");
                out.append(&mut lit);
                push_json_string(&mut out, e.as_str());
            },
            None => {},
        }
        let mut close = chars_of("}");
        out.append(&mut close);
        proof {
            assert(out@ =~= response_json(self@));
        }
        string_from_chars(&out)
    }
}

// ---------------------------------------------------------------------------
// Placeholder resolution
// ---------------------------------------------------------------------------

/// The quoted placeholder token, as it stands in serialized trigger text.
pub open spec fn quoted_children_token() -> Seq<char> {
    "\"__CHILDREN__\""@
}

/// Resolves the placeholder in a serialized trigger: every occurrence of
/// the quoted token is replaced by the JSON array of the given ids;
/// text without the token is returned unchanged.
pub fn resolve_trigger(trigger_text: &str, child_ids: &Vec<String>) -> (r: String)
    ensures
        r@ == replace_all(trigger_text@, quoted_children_token(), ids_lit(child_ids.deep_view())),
{
    let v = chars_of(trigger_text);
    let pat = chars_of("\"__CHILDREN__\"");
    let mut rep: Vec<char> = Vec::new();
    push_ids(&mut rep, child_ids);
    proof {
        reveal_strlit("\"__CHILDREN__\"");
        assert(rep@ =~= ids_lit(child_ids.deep_view()));
    }
    let out = replace_chars(&v, &pat, &rep);
    string_from_chars(&out)
}

/// The characters the placeholder token is made of.
pub open spec fn token_char(c: char) -> bool {
    c == '_' || c == 'C' || c == 'H' || c == 'I' || c == 'L' || c == 'D' || c == 'R' || c == 'E'
        || c == 'N'
}

/// A character fit for a session id in the resolution law: plain under
/// JSON escaping and foreign to the placeholder token. Hyphenated
/// lowercase hexadecimal identifiers qualify.
pub open spec fn id_char_ok(c: char) -> bool {
    crate::jsontext::plain_char(c) && !token_char(c)
}

/// An id whose characters all qualify.
pub open spec fn resolvable_id(id: Seq<char>) -> bool {
    forall|k: int| 0 <= k < id.len() ==> id_char_ok(#[trigger] id[k])
}

proof fn lemma_token_shape()
    ensures
        crate::trigger::children_token().len() == 12,
        quoted_children_token().len() == 14,
        quoted_children_token()[0] == '"',
        quoted_children_token()[13] == '"',
        forall|j: int|
            1 <= j < 13 ==> #[trigger] quoted_children_token()[j]
                == crate::trigger::children_token()[j - 1],
        forall|j: int|
            0 <= j < 12 ==> token_char(#[trigger] crate::trigger::children_token()[j]),
        forall|j: int| 0 <= j < 12 ==> crate::trigger::children_token()[j] != '"',
{
    reveal_strlit("__CHILDREN__");
    reveal_strlit("\"__CHILDREN__\"");
}

proof fn lemma_ids_items_chars(ids: Seq<Seq<char>>)
    requires
        forall|i: int| 0 <= i < ids.len() ==> resolvable_id(#[trigger] ids[i]),
    ensures
        forall|p: int|
            0 <= p < ids_items(ids).len() ==> !token_char(#[trigger] ids_items(ids)[p]),
    decreases ids.len(),
{
    if ids.len() == 0 {
    } else {
        assert(resolvable_id(ids[0]));
        crate::jsontext::lemma_esc_plain(ids[0]);
        let lit = str_lit(ids[0]);
        assert forall|p: int| 0 <= p < lit.len() implies !token_char(#[trigger] lit[p]) by {
            if p == 0 || p == lit.len() - 1 {
                assert(lit[p] == '"');
            } else {
                assert(lit[p] == ids[0][p - 1]);
                assert(id_char_ok(ids[0][p - 1]));
            }
        }
        if ids.len() == 1 {
        } else {
            assert(forall|i: int|
                0 <= i < ids.drop_first().len() ==> resolvable_id(
                    #[trigger] ids.drop_first()[i],
                )) by {
                assert(forall|i: int|
                    0 <= i < ids.drop_first().len() ==> #[trigger] ids.drop_first()[i] == ids[i
                        + 1]);
            }
            lemma_ids_items_chars(ids.drop_first());
            let rest = ids_items(ids.drop_first());
            assert forall|p: int|
                0 <= p < ids_items(ids).len() implies !token_char(
                #[trigger] ids_items(ids)[p]) by {
                if p < lit.len() {
                    assert(ids_items(ids)[p] == lit[p]);
                } else if p == lit.len() {
                    assert(ids_items(ids)[p] == ',');
                } else {
                    assert(ids_items(ids)[p] == rest[p - lit.len() - 1]);
                }
            }
        }
    }
}

proof fn lemma_ids_lit_chars(ids: Seq<Seq<char>>)
    requires
        forall|i: int| 0 <= i < ids.len() ==> resolvable_id(#[trigger] ids[i]),
    ensures
        forall|p: int| 0 <= p < ids_lit(ids).len() ==> !token_char(#[trigger] ids_lit(ids)[p]),
        ids_lit(ids).len() >= 2,
    decreases ids.len(),
{
    lemma_ids_items_chars(ids);
    let lit = ids_lit(ids);
    let items = ids_items(ids);
    assert forall|p: int| 0 <= p < lit.len() implies !token_char(#[trigger] lit[p]) by {
        if p == 0 {
            assert(lit[p] == '[');
        } else if p == lit.len() - 1 {
            assert(lit[p] == ']');
        } else {
            assert(lit[p] == items[p - 1]);
        }
    }
}

/// Placeholder resolution on text of the shape `… "__CHILDREN__" …`: the
/// quoted token gives way to the JSON array of the ids, so the result
/// contains the JSON encoding of the ids and holds no occurrence of the
/// token — for surrounding text free of the token and ids drawn from the
/// identifier alphabet (hyphenated lowercase hexadecimal, as minted ids
/// are).
pub proof fn lemma_resolve_placeholder(a: Seq<char>, b: Seq<char>, ids: Seq<Seq<char>>)
    requires
        forall|i: int| 0 <= i < ids.len() ==> resolvable_id(#[trigger] ids[i]),
        !contains_seq(a, crate::trigger::children_token()),
        !contains_seq(b, crate::trigger::children_token()),
    ensures
        replace_all(a + quoted_children_token() + b, quoted_children_token(), ids_lit(ids)) == a
            + ids_lit(ids) + b,
        contains_seq(a + ids_lit(ids) + b, ids_lit(ids)),
        !contains_seq(a + ids_lit(ids) + b, crate::trigger::children_token()),
{
    lemma_token_shape();
    lemma_ids_lit_chars(ids);
    let token = crate::trigger::children_token();
    let pat = quoted_children_token();
    let rep = ids_lit(ids);
    let s = a + pat + b;
    let al = a.len() as int;

    // no occurrence of the pattern starts inside `a`
    assert forall|k: int| 0 <= k < al implies !is_at(s, pat, k) by {
        if is_at(s, pat, k) {
            assert(forall|j: int| 0 <= j < 14 ==> #[trigger] s[k + j] == pat[j]);
            if k + 13 <= al {
                assert forall|j: int| 0 <= j < 12 implies a.subrange(k + 1, k + 13)[j]
                    == token[j] by {
                    assert(a.subrange(k + 1, k + 13)[j] == a[k + 1 + j]);
                    assert(a[k + 1 + j] == s[k + 1 + j]);
                    assert(s[k + 1 + j] == s.subrange(k, k + 14)[j + 1]);
                    assert(s.subrange(k, k + 14)[j + 1] == pat[j + 1]);
                    assert(pat[j + 1] == token[j]);
                }
                assert(a.subrange(k + 1, k + 13) =~= token);
                assert(is_at(a, token, k + 1));
                assert(contains_seq(a, token));
            } else {
                let j = al - k;
                assert(1 <= j < 14);
                assert(s[al] == pat[0]);
                assert(s[k + j] == pat[j]);
                assert(pat[j] == '"');
                if j < 13 {
                    assert(token_char(token[j - 1]));
                    assert(pat[j] == token[j - 1]);
                    assert(false);
                } else {
                    assert(k == al - 13);
                    assert forall|i2: int| 0 <= i2 < 12 implies a.subrange(k + 1, k + 13)[i2]
                        == token[i2] by {
                        assert(a.subrange(k + 1, k + 13)[i2] == a[k + 1 + i2]);
                        assert(a[k + 1 + i2] == s[k + 1 + i2]);
                        assert(s[k + 1 + i2] == s.subrange(k, k + 14)[i2 + 1]);
                        assert(s.subrange(k, k + 14)[i2 + 1] == pat[i2 + 1]);
                        assert(pat[i2 + 1] == token[i2]);
                    }
                    assert(a.subrange(k + 1, k + 13) =~= token);
                    assert(is_at(a, token, k + 1));
                    assert(contains_seq(a, token));
                }
            }
        }
    }
    assert(s =~= a + (pat + b));
    lemma_replace_prefix(a, pat + b, pat, rep);
    assert((pat + b).subrange(0, 14) =~= pat);
    assert((pat + b).skip(14) =~= b);
    assert(!contains_seq(b, pat)) by {
        if contains_seq(b, pat) {
            let k = choose|k: int| is_at(b, pat, k);
            assert forall|j: int| 0 <= j < 12 implies b.subrange(k + 1, k + 13)[j] == token[j] by {
                assert(b.subrange(k + 1, k + 13)[j] == b[k + 1 + j]);
                assert(b[k + 1 + j] == b.subrange(k, k + 14)[j + 1]);
                assert(b.subrange(k, k + 14)[j + 1] == pat[j + 1]);
                assert(pat[j + 1] == token[j]);
            }
            assert(b.subrange(k + 1, k + 13) =~= token);
            assert(is_at(b, token, k + 1));
        }
    }
    lemma_replace_none(b, pat, rep);
    assert(replace_all(s, pat, rep) == a + (rep + replace_all(b, pat, rep)));
    let r = a + rep + b;
    assert(a + (rep + b) =~= r);
    assert(replace_all(s, pat, rep) == r);

    // the result contains the encoding of the ids
    assert(r.subrange(al, al + rep.len() as int) =~= rep);
    assert(is_at(r, rep, al));

    // and holds no occurrence of the token
    let rl = rep.len() as int;
    assert forall|k: int| !is_at(r, token, k) by {
        if is_at(r, token, k) {
            assert(forall|j: int| 0 <= j < 12 ==> #[trigger] r[k + j] == token[j]);
            if k + 12 <= al {
                assert(a.subrange(k, k + 12) =~= token) by {
                    assert(forall|j: int| 0 <= j < 12 ==> #[trigger] a[k + j] == r[k + j]);
                }
                assert(is_at(a, token, k));
            } else if k >= al + rl {
                let k2 = k - al - rl;
                assert(b.subrange(k2, k2 + 12) =~= token) by {
                    assert(forall|j: int| 0 <= j < 12 ==> #[trigger] b[k2 + j] == r[k + j]);
                }
                assert(is_at(b, token, k2));
            } else {
                let p = if k >= al {
                    k
                } else {
                    al
                };
                assert(al <= p < al + rl);
                assert(k <= p < k + 12);
                assert(r[p] == rep[p - al]);
                assert(r[p] == token[p - k]);
                assert(token_char(token[p - k]));
                assert(!token_char(rep[p - al]));
                assert(false);
            }
        }
    }
}


/// Minted identifiers qualify for the resolution law: every character of
/// the hyphenated lowercase-hexadecimal alphabet is plain under JSON
/// escaping and foreign to the placeholder token.
pub proof fn lemma_uuid_text_resolvable(id: Seq<char>)
    requires
        crate::session::uuid_text(id),
    ensures
        resolvable_id(id),
{
    assert forall|k: int| 0 <= k < id.len() implies id_char_ok(#[trigger] id[k]) by {
        assert(crate::session::uuid_char(id[k]));
    }
}

/// Resolving the placeholder form of a trigger yields exactly the live
/// trigger's own serialization, for ids from the minted alphabet: the
/// quoted token of `{"all_complete":"__CHILDREN__"}` (likewise
/// `any_complete`) gives way to the JSON array of the ids.
pub proof fn lemma_resolve_template(t: crate::trigger::TriggerTemplateV, ids: Seq<Seq<char>>)
    requires
        forall|i: int| 0 <= i < ids.len() ==> resolvable_id(#[trigger] ids[i]),
        t is AllChildren || t is AnyChildren,
    ensures
        t is AllChildren ==> replace_all(
            crate::trigger::template_json(t),
            quoted_children_token(),
            ids_lit(ids),
        ) == crate::trigger::trigger_json(crate::trigger::TriggerV::AllComplete(ids)),
        t is AnyChildren ==> replace_all(
            crate::trigger::template_json(t),
            quoted_children_token(),
            ids_lit(ids),
        ) == crate::trigger::trigger_json(crate::trigger::TriggerV::AnyComplete(ids)),
{
    lemma_token_shape();
    reveal_strlit("\"__CHILDREN__\"");
    reveal_strlit("__CHILDREN__");
    let token = crate::trigger::children_token();
    if t is AllChildren {
        reveal_strlit("{\"all_complete\":\"__CHILDREN__\"}");
        reveal_strlit("{\"all_complete\":");
        reveal_strlit("}");
        let a = "{\"all_complete\":"@;
        let b = "}"@;
        assert(crate::trigger::template_json(t) =~= a + quoted_children_token() + b);
        lemma_no_token_in_key_prefix(a);
        assert(!contains_seq(b, token)) by {
            if contains_seq(b, token) {
                let k = choose|k: int| is_at(b, token, k);
            }
        }
        lemma_resolve_placeholder(a, b, ids);
        assert(a + ids_lit(ids) + b =~= crate::trigger::trigger_json(
            crate::trigger::TriggerV::AllComplete(ids),
        ));
    } else {
        reveal_strlit("{\"any_complete\":\"__CHILDREN__\"}");
        reveal_strlit("{\"any_complete\":");
        reveal_strlit("}");
        let a = "{\"any_complete\":"@;
        let b = "}"@;
        assert(crate::trigger::template_json(t) =~= a + quoted_children_token() + b);
        lemma_no_token_in_key_prefix(a);
        assert(!contains_seq(b, token)) by {
            if contains_seq(b, token) {
                let k = choose|k: int| is_at(b, token, k);
            }
        }
        lemma_resolve_placeholder(a, b, ids);
        assert(a + ids_lit(ids) + b =~= crate::trigger::trigger_json(
            crate::trigger::TriggerV::AnyComplete(ids),
        ));
    }
}

/// A trigger object's opening text holds no occurrence of the token: the
/// token begins with two adjacent underscores and the key prefixes have
/// no two adjacent underscores.
proof fn lemma_no_token_in_key_prefix(a: Seq<char>)
    requires
        a.len() < 18,
        forall|k: int| 0 <= k + 1 < a.len() ==> !(#[trigger] a[k] == '_' && a[k + 1] == '_'),
    ensures
        !contains_seq(a, crate::trigger::children_token()),
{
    lemma_token_shape();
    let token = crate::trigger::children_token();
    assert(token[0] == '_' && token[1] == '_') by {
        reveal_strlit("__CHILDREN__");
    }
    assert forall|k: int| !is_at(a, token, k) by {
        if is_at(a, token, k) {
            assert(a.subrange(k, k + 12)[0] == token[0]);
            assert(a.subrange(k, k + 12)[1] == token[1]);
            assert(a[k] == '_' && a[k + 1] == '_');
        }
    }
}

// ---------------------------------------------------------------------------
// Request parsing
// ---------------------------------------------------------------------------

/// The fields collected while reading a request object.
pub struct ReqFields {
    pub ty: Option<String>,
    pub session_id: Option<String>,
    pub result: Option<String>,
    pub trigger: Option<TriggerTemplate>,
    pub checkpoint: Option<String>,
    pub children: Option<Vec<ChildSpec>>,
}

/// Model of the collected fields.
pub struct ReqFieldsV {
    pub ty: Option<Seq<char>>,
    pub session_id: Option<Seq<char>>,
    pub result: Option<Seq<char>>,
    pub trigger: Option<TriggerTemplateV>,
    pub checkpoint: Option<Seq<char>>,
    pub children: Option<Seq<ChildSpecV>>,
}

impl View for ReqFields {
    type V = ReqFieldsV;

    open spec fn view(&self) -> ReqFieldsV {
        ReqFieldsV {
            ty: match self.ty {
                Some(s) => Some(s@),
                None => None,
            },
            session_id: match self.session_id {
                Some(s) => Some(s@),
                None => None,
            },
            result: match self.result {
                Some(s) => Some(s@),
                None => None,
            },
            trigger: match self.trigger {
                Some(t) => Some(t@),
                None => None,
            },
            checkpoint: match self.checkpoint {
                Some(s) => Some(s@),
                None => None,
            },
            children: match self.children {
                Some(c) => Some(c.deep_view()),
                None => None,
            },
        }
    }
}

/// The empty field record.
pub open spec fn empty_fields() -> ReqFieldsV {
    ReqFieldsV {
        ty: None,
        session_id: None,
        result: None,
        trigger: None,
        checkpoint: None,
        children: None,
    }
}

/// Parse of one child object's pairs, after its opening brace; `ken` and
/// `task` hold the fields already read. A repeated or unknown key, or a
/// missing field at the closing brace, is an error.
pub open spec fn sp_child_pairs(s: Seq<char>, ken: Option<Seq<char>>, task: Option<Seq<char>>)
    -> Option<(ChildSpecV, Seq<char>)>
    decreases s.len(),
    via sp_child_pairs_dec
{
    match sp_string_value(s) {
        None => None,
        Some(kp) => {
            let r1 = sp_ws(kp.1);
            if r1.len() > 0 && r1[0] == ':' {
                match sp_string_value(r1.drop_first()) {
                    None => None,
                    Some(vp) => {
                        let assigned: Option<(Option<Seq<char>>, Option<Seq<char>>)> = if kp.0
                            == "ken"@ {
                            if ken is Some {
                                None
                            } else {
                                Some((Some(vp.0), task))
                            }
                        } else if kp.0 == "task"@ {
                            if task is Some {
                                None
                            } else {
                                Some((ken, Some(vp.0)))
                            }
                        } else {
                            None
                        };
                        match assigned {
                            None => None,
                            Some(kt) => {
                                let r2 = sp_ws(vp.1);
                                if r2.len() > 0 && r2[0] == '}' {
                                    match kt {
                                        (Some(k), Some(t)) => Some(
                                            (ChildSpecV { ken: k, task: t }, r2.drop_first()),
                                        ),
                                        _ => None,
                                    }
                                } else if r2.len() > 0 && r2[0] == ',' {
                                    sp_child_pairs(r2.drop_first(), kt.0, kt.1)
                                } else {
                                    None
                                }
                            },
                        }
                    },
                }
            } else {
                None
            }
        },
    }
}

#[via_fn]
proof fn sp_child_pairs_dec(s: Seq<char>, ken: Option<Seq<char>>, task: Option<Seq<char>>) {
    crate::trigger::lemma_string_value_shrinks(s);
    match sp_string_value(s) {
        None => {},
        Some(kp) => {
            lemma_ws_shrinks(kp.1);
            let r1 = sp_ws(kp.1);
            if r1.len() > 0 && r1[0] == ':' {
                crate::trigger::lemma_string_value_shrinks(r1.drop_first());
                match sp_string_value(r1.drop_first()) {
                    None => {},
                    Some(vp) => {
                        lemma_ws_shrinks(vp.1);
                    },
                }
            }
        },
    }
}

/// Parse of one child object.
pub open spec fn sp_child(s: Seq<char>) -> Option<(ChildSpecV, Seq<char>)> {
    let s1 = sp_ws(s);
    if s1.len() > 0 && s1[0] == '{' {
        sp_child_pairs(s1.drop_first(), None, None)
    } else {
        None
    }
}

pub proof fn lemma_child_pairs_shrinks(s: Seq<char>, ken: Option<Seq<char>>, task: Option<Seq<char>>)
    ensures
        sp_child_pairs(s, ken, task) matches Some(p) ==> p.1.len() < s.len(),
    decreases s.len(),
{
    crate::trigger::lemma_string_value_shrinks(s);
    match sp_string_value(s) {
        None => {},
        Some(kp) => {
            lemma_ws_shrinks(kp.1);
            let r1 = sp_ws(kp.1);
            if r1.len() > 0 && r1[0] == ':' {
                crate::trigger::lemma_string_value_shrinks(r1.drop_first());
                match sp_string_value(r1.drop_first()) {
                    None => {},
                    Some(vp) => {
                        lemma_ws_shrinks(vp.1);
                        let r2 = sp_ws(vp.1);
                        if r2.len() > 0 && r2[0] == ',' {
                            if kp.0 == "ken"@ && ken is None {
                                lemma_child_pairs_shrinks(r2.drop_first(), Some(vp.0), task);
                            } else if kp.0 == "task"@ && kp.0 != "ken"@ && task is None {
                                lemma_child_pairs_shrinks(r2.drop_first(), ken, Some(vp.0));
                            }
                        }
                    },
                }
            }
        },
    }
}

pub proof fn lemma_child_shrinks(s: Seq<char>)
    ensures
        sp_child(s) matches Some(p) ==> p.1.len() < s.len(),
{
    lemma_ws_shrinks(s);
    let s1 = sp_ws(s);
    if s1.len() > 0 && s1[0] == '{' {
        lemma_child_pairs_shrinks(s1.drop_first(), None, None);
    }
}

/// Parse of the remaining children after the first.
pub open spec fn sp_children_rest(s: Seq<char>, acc: Seq<ChildSpecV>) -> Option<
    (Seq<ChildSpecV>, Seq<char>),
>
    decreases s.len(),
    via sp_children_rest_dec
{
    let s1 = sp_ws(s);
    if s1.len() > 0 && s1[0] == ']' {
        Some((acc, s1.drop_first()))
    } else if s1.len() > 0 && s1[0] == ',' {
        match sp_child(s1.drop_first()) {
            None => None,
            Some(cp) => sp_children_rest(cp.1, acc.push(cp.0)),
        }
    } else {
        None
    }
}

#[via_fn]
proof fn sp_children_rest_dec(s: Seq<char>, acc: Seq<ChildSpecV>) {
    lemma_ws_shrinks(s);
    let s1 = sp_ws(s);
    if s1.len() > 0 && s1[0] != ']' && s1[0] == ',' {
        lemma_child_shrinks(s1.drop_first());
    }
}

/// Parse of the children array.
pub open spec fn sp_children(s: Seq<char>) -> Option<(Seq<ChildSpecV>, Seq<char>)> {
    let s1 = sp_ws(s);
    if s1.len() > 0 && s1[0] == '[' {
        let s2 = sp_ws(s1.drop_first());
        if s2.len() > 0 && s2[0] == ']' {
            Some((Seq::empty(), s2.drop_first()))
        } else {
            match sp_child(s1.drop_first()) {
                None => None,
                Some(cp) => sp_children_rest(cp.1, seq![cp.0]),
            }
        }
    } else {
        None
    }
}

pub proof fn lemma_children_rest_shrinks(s: Seq<char>, acc: Seq<ChildSpecV>)
    ensures
        sp_children_rest(s, acc) matches Some(p) ==> p.1.len() < s.len(),
    decreases s.len(),
{
    lemma_ws_shrinks(s);
    let s1 = sp_ws(s);
    if s1.len() > 0 && s1[0] == ']' {
    } else if s1.len() > 0 && s1[0] == ',' {
        lemma_child_shrinks(s1.drop_first());
        match sp_child(s1.drop_first()) {
            None => {},
            Some(cp) => {
                lemma_children_rest_shrinks(cp.1, acc.push(cp.0));
            },
        }
    }
}

pub proof fn lemma_children_shrinks(s: Seq<char>)
    ensures
        sp_children(s) matches Some(p) ==> p.1.len() < s.len(),
{
    lemma_ws_shrinks(s);
    let s1 = sp_ws(s);
    if s1.len() > 0 && s1[0] == '[' {
        lemma_ws_shrinks(s1.drop_first());
        lemma_child_shrinks(s1.drop_first());
        match sp_child(s1.drop_first()) {
            None => {},
            Some(cp) => {
                lemma_children_rest_shrinks(cp.1, seq![cp.0]);
            },
        }
    }
}

/// Assigns a parsed value to the field named by `key`; a repeated or
/// unknown key is an error. Returns the updated fields and leftover input.
pub open spec fn sp_req_value(key: Seq<char>, f: ReqFieldsV, s: Seq<char>) -> Option<
    (ReqFieldsV, Seq<char>),
> {
    if key == "type"@ {
        if f.ty is Some {
            None
        } else {
            match sp_string_value(s) {
                None => None,
                Some(p) => Some((ReqFieldsV { ty: Some(p.0), ..f }, p.1)),
            }
        }
    } else if key == "session_id"@ {
        if f.session_id is Some {
            None
        } else {
            match sp_string_value(s) {
                None => None,
                Some(p) => Some((ReqFieldsV { session_id: Some(p.0), ..f }, p.1)),
            }
        }
    } else if key == "result"@ {
        if f.result is Some {
            None
        } else {
            match sp_string_value(s) {
                None => None,
                Some(p) => Some((ReqFieldsV { result: Some(p.0), ..f }, p.1)),
            }
        }
    } else if key == "checkpoint"@ {
        if f.checkpoint is Some {
            None
        } else {
            match sp_string_value(s) {
                None => None,
                Some(p) => Some((ReqFieldsV { checkpoint: Some(p.0), ..f }, p.1)),
            }
        }
    } else if key == "trigger"@ {
        if f.trigger is Some {
            None
        } else {
            match sp_trigger(s) {
                None => None,
                Some(p) => Some((ReqFieldsV { trigger: Some(p.0), ..f }, p.1)),
            }
        }
    } else if key == "children"@ {
        if f.children is Some {
            None
        } else {
            match sp_children(s) {
                None => None,
                Some(p) => Some((ReqFieldsV { children: Some(p.0), ..f }, p.1)),
            }
        }
    } else {
        None
    }
}

pub proof fn lemma_req_value_shrinks(key: Seq<char>, f: ReqFieldsV, s: Seq<char>)
    ensures
        sp_req_value(key, f, s) matches Some(p) ==> p.1.len() < s.len(),
{
    crate::trigger::lemma_string_value_shrinks(s);
    crate::trigger::lemma_trigger_shrinks(s);
    lemma_children_shrinks(s);
}

/// Parse of the request object's pairs, after the opening brace.
pub open spec fn sp_req_pairs(s: Seq<char>, f: ReqFieldsV) -> Option<(ReqFieldsV, Seq<char>)>
    decreases s.len(),
    via sp_req_pairs_dec
{
    match sp_string_value(s) {
        None => None,
        Some(kp) => {
            let r1 = sp_ws(kp.1);
            if r1.len() > 0 && r1[0] == ':' {
                match sp_req_value(kp.0, f, r1.drop_first()) {
                    None => None,
                    Some(fp) => {
                        let r2 = sp_ws(fp.1);
                        if r2.len() > 0 && r2[0] == '}' {
                            Some((fp.0, r2.drop_first()))
                        } else if r2.len() > 0 && r2[0] == ',' {
                            sp_req_pairs(r2.drop_first(), fp.0)
                        } else {
                            None
                        }
                    },
                }
            } else {
                None
            }
        },
    }
}

#[via_fn]
proof fn sp_req_pairs_dec(s: Seq<char>, f: ReqFieldsV) {
    crate::trigger::lemma_string_value_shrinks(s);
    match sp_string_value(s) {
        None => {},
        Some(kp) => {
            lemma_ws_shrinks(kp.1);
            let r1 = sp_ws(kp.1);
            if r1.len() > 0 && r1[0] == ':' {
                lemma_req_value_shrinks(kp.0, f, r1.drop_first());
                match sp_req_value(kp.0, f, r1.drop_first()) {
                    None => {},
                    Some(fp) => {
                        lemma_ws_shrinks(fp.1);
                    },
                }
            }
        },
    }
}

/// Builds a request from collected fields: the `type` field names the
/// shape, and the shape's fields must all be present.
pub open spec fn assemble_request(f: ReqFieldsV) -> Option<AgentRequestV> {
    match f.ty {
        None => None,
        Some(ty) => {
            if ty == "complete"@ {
                match (f.session_id, f.result) {
                    (Some(sid), Some(res)) => Some(
                        AgentRequestV::Complete { session_id: sid, result: res },
                    ),
                    _ => None,
                }
            } else if ty == "sleep"@ {
                match (f.session_id, f.trigger, f.checkpoint) {
                    (Some(sid), Some(tr), Some(cp)) => Some(
                        AgentRequestV::Sleep { session_id: sid, trigger: tr, checkpoint: cp },
                    ),
                    _ => None,
                }
            } else if ty == "spawn_and_sleep"@ {
                match (f.session_id, f.children, f.trigger, f.checkpoint) {
                    (Some(sid), Some(ch), Some(tr), Some(cp)) => Some(
                        AgentRequestV::SpawnAndSleep {
                            session_id: sid,
                            children: ch,
                            trigger: tr,
                            checkpoint: cp,
                        },
                    ),
                    _ => None,
                }
            } else {
                None
            }
        },
    }
}

/// Parse of a whole request: a JSON object in one of the closed shapes,
/// with nothing but whitespace after it.
pub open spec fn sp_request(s: Seq<char>) -> Option<AgentRequestV> {
    let s1 = sp_ws(s);
    if s1.len() > 0 && s1[0] == '{' {
        match sp_req_pairs(s1.drop_first(), empty_fields()) {
            None => None,
            Some(p) => {
                if sp_ws(p.1).len() == 0 {
                    assemble_request(p.0)
                } else {
                    None
                }
            },
        }
    } else {
        None
    }
}


// ---------------------------------------------------------------------------
// Executable request parsing
// ---------------------------------------------------------------------------

/// Lifts an optional string to its model.
pub open spec fn osv(o: Option<String>) -> Option<Seq<char>> {
    match o {
        Some(s) => Some(s@),
        None => None,
    }
}

/// Parses one child object's pairs, the opening brace already consumed.
fn parse_child_pairs(v: &Vec<char>, i: usize, ken: Option<String>, task: Option<String>) -> (r:
    Option<(ChildSpec, usize)>)
    requires
        i <= v@.len(),
    ensures
        match r {
            None => sp_child_pairs(v@.skip(i as int), osv(ken), osv(task)) is None,
            Some(p) => i < p.1 <= v@.len() && sp_child_pairs(v@.skip(i as int), osv(ken), osv(task))
                == Some((p.0@, v@.skip(p.1 as int))),
        },
    decreases v@.len() - i,
{
    let n = v.len();
    let (key, k1) = match parse_str_value(v, i) {
        None => {
            return None;
        },
        Some(p) => p,
    };
    let r1 = skip_ws(v, k1);
    if r1 == n {
        return None;
    }
    if v[r1] != ':' {
        return None;
    }
    proof {
        assert(v@.skip(r1 as int).drop_first() =~= v@.skip(r1 + 1));
    }
    let (val, k2) = match parse_str_value(v, r1 + 1) {
        None => {
            return None;
        },
        Some(p) => p,
    };
    let kt: (Option<String>, Option<String>) = if crate::strutil::str_eq(key.as_str(), "ken") {
        if ken.is_some() {
            return None;
        }
        (Some(val), task)
    } else if crate::strutil::str_eq(key.as_str(), "task") {
        if task.is_some() {
            return None;
        }
        (ken, Some(val))
    } else {
        return None;
    };
    let (ken2, task2) = kt;
    let r2 = skip_ws(v, k2);
    if r2 == n {
        return None;
    }
    if v[r2] == '}' {
        proof {
            assert(v@.skip(r2 as int).drop_first() =~= v@.skip(r2 + 1));
        }
        match (ken2, task2) {
            (Some(k), Some(t)) => Some((ChildSpec { ken: k, task: t }, r2 + 1)),
            _ => None,
        }
    } else if v[r2] == ',' {
        proof {
            assert(v@.skip(r2 as int).drop_first() =~= v@.skip(r2 + 1));
        }
        parse_child_pairs(v, r2 + 1, ken2, task2)
    } else {
        None
    }
}

/// Parses one child object starting at `i`.
fn parse_child(v: &Vec<char>, i: usize) -> (r: Option<(ChildSpec, usize)>)
    requires
        i <= v@.len(),
    ensures
        match r {
            None => sp_child(v@.skip(i as int)) is None,
            Some(p) => i < p.1 <= v@.len() && sp_child(v@.skip(i as int)) == Some(
                (p.0@, v@.skip(p.1 as int)),
            ),
        },
{
    let n = v.len();
    let j = skip_ws(v, i);
    if j == n {
        return None;
    }
    if v[j] != '{' {
        return None;
    }
    proof {
        assert(v@.skip(j as int).drop_first() =~= v@.skip(j + 1));
    }
    parse_child_pairs(v, j + 1, None, None)
}

/// Parses a children array starting at `i`.
fn parse_children_at(v: &Vec<char>, i: usize) -> (r: Option<(Vec<ChildSpec>, usize)>)
    requires
        i <= v@.len(),
    ensures
        match r {
            None => sp_children(v@.skip(i as int)) is None,
            Some(p) => i < p.1 <= v@.len() && sp_children(v@.skip(i as int)) == Some(
                (p.0.deep_view(), v@.skip(p.1 as int)),
            ),
        },
{
    let n = v.len();
    let s1 = skip_ws(v, i);
    if s1 == n {
        return None;
    }
    if v[s1] != '[' {
        return None;
    }
    proof {
        assert(v@.skip(s1 as int).drop_first() =~= v@.skip(s1 + 1));
    }
    let s2 = skip_ws(v, s1 + 1);
    if s2 < n && v[s2] == ']' {
        let out: Vec<ChildSpec> = Vec::new();
        proof {
            assert(v@.skip(s2 as int).drop_first() =~= v@.skip(s2 + 1));
            assert(out.deep_view() =~= Seq::<ChildSpecV>::empty());
        }
        return Some((out, s2 + 1));
    }
    match parse_child(v, s1 + 1) {
        None => {
            return None;
        },
        Some((c, j0)) => {
            let mut acc: Vec<ChildSpec> = Vec::new();
            acc.push(c);
            proof {
                assert(acc.deep_view() =~= seq![acc@[0]@]);
            }
            let mut j = j0;
            loop
                invariant
                    i <= j <= v@.len(),
                    n == v@.len(),
                    sp_children(v@.skip(i as int)) == sp_children_rest(
                        v@.skip(j as int),
                        acc.deep_view(),
                    ),
                decreases v@.len() - j,
            {
                let j3 = skip_ws(v, j);
                if j3 == n {
                    return None;
                }
                let c2 = v[j3];
                if c2 == ']' {
                    proof {
                        assert(v@.skip(j3 as int).drop_first() =~= v@.skip(j3 + 1));
                    }
                    return Some((acc, j3 + 1));
                }
                if c2 != ',' {
                    return None;
                }
                proof {
                    assert(v@.skip(j3 as int).drop_first() =~= v@.skip(j3 + 1));
                }
                match parse_child(v, j3 + 1) {
                    None => {
                        return None;
                    },
                    Some((c3, j5)) => {
                        let ghost dv0 = acc.deep_view();
                        acc.push(c3);
                        proof {
                            assert(acc.deep_view() =~= dv0.push(acc@[acc@.len() - 1]@));
                        }
                        j = j5;
                    },
                }
            }
        },
    }
}

/// Parses the request object's pairs, the opening brace already consumed.
fn parse_req_pairs(v: &Vec<char>, i: usize, f: ReqFields) -> (r: Option<(ReqFields, usize)>)
    requires
        i <= v@.len(),
    ensures
        match r {
            None => sp_req_pairs(v@.skip(i as int), f@) is None,
            Some(p) => i < p.1 <= v@.len() && sp_req_pairs(v@.skip(i as int), f@) == Some(
                (p.0@, v@.skip(p.1 as int)),
            ),
        },
    decreases v@.len() - i,
{
    let n = v.len();
    let ghost f0 = f@;
    let (key, k1) = match parse_str_value(v, i) {
        None => {
            return None;
        },
        Some(p) => p,
    };
    let r1 = skip_ws(v, k1);
    if r1 == n {
        return None;
    }
    if v[r1] != ':' {
        return None;
    }
    proof {
        assert(v@.skip(r1 as int).drop_first() =~= v@.skip(r1 + 1));
    }
    let vstart = r1 + 1;
    let f2: ReqFields;
    let after: usize;
    if crate::strutil::str_eq(key.as_str(), "type") {
        if f.ty.is_some() {
            return None;
        }
        match parse_str_value(v, vstart) {
            None => {
                return None;
            },
            Some((s, j)) => {
                f2 = ReqFields { ty: Some(s), ..f };
                after = j;
            },
        }
    } else if crate::strutil::str_eq(key.as_str(), "session_id") {
        if f.session_id.is_some() {
            return None;
        }
        match parse_str_value(v, vstart) {
            None => {
                return None;
            },
            Some((s, j)) => {
                f2 = ReqFields { session_id: Some(s), ..f };
                after = j;
            },
        }
    } else if crate::strutil::str_eq(key.as_str(), "result") {
        if f.result.is_some() {
            return None;
        }
        match parse_str_value(v, vstart) {
            None => {
                return None;
            },
            Some((s, j)) => {
                f2 = ReqFields { result: Some(s), ..f };
                after = j;
            },
        }
    } else if crate::strutil::str_eq(key.as_str(), "checkpoint") {
        if f.checkpoint.is_some() {
            return None;
        }
        match parse_str_value(v, vstart) {
            None => {
                return None;
            },
            Some((s, j)) => {
                f2 = ReqFields { checkpoint: Some(s), ..f };
                after = j;
            },
        }
    } else if crate::strutil::str_eq(key.as_str(), "trigger") {
        if f.trigger.is_some() {
            return None;
        }
        match parse_trigger_at(v, vstart) {
            None => {
                return None;
            },
            Some((t, j)) => {
                f2 = ReqFields { trigger: Some(t), ..f };
                after = j;
            },
        }
    } else if crate::strutil::str_eq(key.as_str(), "children") {
        if f.children.is_some() {
            return None;
        }
        match parse_children_at(v, vstart) {
            None => {
                return None;
            },
            Some((c, j)) => {
                f2 = ReqFields { children: Some(c), ..f };
                after = j;
            },
        }
    } else {
        return None;
    }
    proof {
        assert(sp_req_value(key@, f0, v@.skip(vstart as int)) == Some(
            (f2@, v@.skip(after as int)),
        ));
    }
    let r2 = skip_ws(v, after);
    if r2 == n {
        return None;
    }
    if v[r2] == '}' {
        proof {
            assert(v@.skip(r2 as int).drop_first() =~= v@.skip(r2 + 1));
        }
        Some((f2, r2 + 1))
    } else if v[r2] == ',' {
        proof {
            assert(v@.skip(r2 as int).drop_first() =~= v@.skip(r2 + 1));
        }
        parse_req_pairs(v, r2 + 1, f2)
    } else {
        None
    }
}

/// Parses one agent request from JSON text. `Ok` exactly when the text is
/// a well-formed request in one of the closed shapes; anything else is an
/// invalid request.
pub fn parse_agent_request(json: &str) -> (r: Result<AgentRequest, KenError>)
    ensures
        r matches Ok(req) ==> sp_request(json@) == Some(req@),
        r is Err ==> sp_request(json@) is None,
        r is Err ==> r matches Err(KenError::InvalidRequest(_)),
{
    let v = chars_of(json);
    proof {
        assert(v@.skip(0) =~= v@);
    }
    let n = v.len();
    let j = skip_ws(&v, 0);
    if j == n {
        return Err(invalid_request());
    }
    if v[j] != '{' {
        return Err(invalid_request());
    }
    proof {
        assert(v@.skip(j as int).drop_first() =~= v@.skip(j + 1));
    }
    let f0 = ReqFields {
        ty: None,
        session_id: None,
        result: None,
        trigger: None,
        checkpoint: None,
        children: None,
    };
    proof {
        assert(f0@ == empty_fields());
    }
    match parse_req_pairs(&v, j + 1, f0) {
        None => Err(invalid_request()),
        Some((f, j2)) => {
            let j3 = skip_ws(&v, j2);
            if j3 != n {
                return Err(invalid_request());
            }
            let ReqFields { ty, session_id, result, trigger, checkpoint, children } = f;
            match ty {
                None => Err(invalid_request()),
                Some(t) => {
                    if crate::strutil::str_eq(t.as_str(), "complete") {
                        match (session_id, result) {
                            (Some(sid), Some(res)) => Ok(
                                AgentRequest::Complete { session_id: sid, result: res },
                            ),
                            _ => Err(invalid_request()),
                        }
                    } else if crate::strutil::str_eq(t.as_str(), "sleep") {
                        match (session_id, trigger, checkpoint) {
                            (Some(sid), Some(tr), Some(cp)) => Ok(
                                AgentRequest::Sleep {
                                    session_id: sid,
                                    trigger: tr,
                                    checkpoint: cp,
                                },
                            ),
                            _ => Err(invalid_request()),
                        }
                    } else if crate::strutil::str_eq(t.as_str(), "spawn_and_sleep") {
                        match (session_id, children, trigger, checkpoint) {
                            (Some(sid), Some(ch), Some(tr), Some(cp)) => Ok(
                                AgentRequest::SpawnAndSleep {
                                    session_id: sid,
                                    children: ch,
                                    trigger: tr,
                                    checkpoint: cp,
                                },
                            ),
                            _ => Err(invalid_request()),
                        }
                    } else {
                        Err(invalid_request())
                    }
                },
            }
        },
    }
}

fn invalid_request() -> (r: KenError)
    ensures
        r matches KenError::InvalidRequest(_),
{
    KenError::InvalidRequest(<String as vstd::string::StringExecFns>::from_str("malformed agent request"))
}

} // verus!
