//! The persisted settings document: a JSON object with the six settings
//! fields, rendered and parsed by the library itself so that saving and
//! loading round-trips exactly.

use vstd::prelude::*;
use vstd::string::StringExecFns;
use crate::json::{
    skip_ws, is_ws, esc_seq, parse_string, parse_scontent, append_escaped, scan_string, ws_end,
    lemma_escape_parses,
};
use crate::event::{at_pos, lit_at};
use crate::models::{Settings, SettingsView};
use crate::text::string_of_chars;

verus! {

/// One `"name": "value"` member, rendered without whitespace.
pub open spec fn member_render(name: Seq<char>, v: Seq<char>) -> Seq<char> {
    name + seq![':', '"'] + esc_seq(v) + seq!['"']
}

/// The rendered settings document.
pub open spec fn settings_json(s: SettingsView) -> Seq<char> {
    seq!['{'] + member_render("\"api_key\""@, s.api_key) + seq![','] + member_render(
        "\"model\""@,
        s.model,
    ) + seq![','] + member_render("\"provider\""@, s.provider) + seq![','] + member_render(
        "\"system_prompt\""@,
        s.system_prompt,
    ) + seq![','] + member_render("\"default_source_language\""@, s.default_source_language)
        + seq![','] + member_render("\"default_target_language\""@, s.default_target_language)
        + seq!['}']
}

/// Parses one `"name": "value"` member starting at `i`, tolerating
/// whitespace around the tokens.
pub open spec fn parse_member(s: Seq<char>, i: int, name: Seq<char>) -> Option<(Seq<char>, int)> {
    let j = skip_ws(s, i);
    if lit_at(s, j, name) {
        let k = skip_ws(s, j + name.len());
        if at_pos(s, k, ':') {
            let m = skip_ws(s, k + 1);
            parse_string(s, m)
        } else {
            None
        }
    } else {
        None
    }
}

/// Parses the whole settings document: the six fields in order, or `None`
/// for any other text.
pub open spec fn parse_settings_text(s: Seq<char>) -> Option<SettingsView> {
    let i = skip_ws(s, 0);
    if !at_pos(s, i, '{') {
        None
    } else {
        match parse_member(s, i + 1, "\"api_key\""@) {
            None => None,
            Some((v1, p1)) => {
                let c1 = skip_ws(s, p1);
                if !at_pos(s, c1, ',') {
                    None
                } else {
                    match parse_member(s, c1 + 1, "\"model\""@) {
                        None => None,
                        Some((v2, p2)) => {
                            let c2 = skip_ws(s, p2);
                            if !at_pos(s, c2, ',') {
                                None
                            } else {
                                match parse_member(s, c2 + 1, "\"provider\""@) {
                                    None => None,
                                    Some((v3, p3)) => {
                                        let c3 = skip_ws(s, p3);
                                        if !at_pos(s, c3, ',') {
                                            None
                                        } else {
                                            match parse_member(s, c3 + 1, "\"system_prompt\""@) {
                                                None => None,
                                                Some((v4, p4)) => {
                                                    let c4 = skip_ws(s, p4);
                                                    if !at_pos(s, c4, ',') {
                                                        None
                                                    } else {
                                                        match parse_member(
                                                            s,
                                                            c4 + 1,
                                                            "\"default_source_language\""@,
                                                        ) {
                                                            None => None,
                                                            Some((v5, p5)) => {
                                                                let c5 = skip_ws(s, p5);
                                                                if !at_pos(s, c5, ',') {
                                                                    None
                                                                } else {
                                                                    match parse_member(
                                                                        s,
                                                                        c5 + 1,
                                                                        "\"default_target_language\""@,
                                                                    ) {
                                                                        None => None,
                                                                        Some((v6, p6)) => {
                                                                            let e = skip_ws(s, p6);
                                                                            if at_pos(s, e, '}')
                                                                                && skip_ws(s, e + 1)
                                                                                == s.len() {
                                                                                Some(
                                                                                    SettingsView {
                                                                                        api_key: v1,
                                                                                        model: v2,
                                                                                        provider: v3,
                                                                                        system_prompt: v4,
                                                                                        default_source_language: v5,
                                                                                        default_target_language: v6,
                                                                                    },
                                                                                )
                                                                            } else {
                                                                                None
                                                                            }
                                                                        }
                                                                    }
                                                                }
                                                            }
                                                        }
                                                    }
                                                }
                                            }
                                        }
                                    }
                                }
                            }
                        }
                    }
                }
            }
        }
    }
}

/// Renders the settings as their persisted JSON document.
pub fn render_settings(s: &Settings) -> (r: String)
    ensures
        r@ == settings_json(s@),
{
    let mut r = String::from_str("{\"api_key\":\"");
    append_escaped(&mut r, s.api_key.as_str());
    r.append("\",\"model\":\"");
    append_escaped(&mut r, s.model.as_str());
    r.append("\",\"provider\":\"");
    append_escaped(&mut r, s.provider.as_str());
    r.append("\",\"system_prompt\":\"");
    append_escaped(&mut r, s.system_prompt.as_str());
    r.append("\",\"default_source_language\":\"");
    append_escaped(&mut r, s.default_source_language.as_str());
    r.append("\",\"default_target_language\":\"");
    append_escaped(&mut r, s.default_target_language.as_str());
    r.append("\"}");
    proof {
        reveal_strlit("{\"api_key\":\"");
        reveal_strlit("\",\"model\":\"");
        reveal_strlit("\",\"provider\":\"");
        reveal_strlit("\",\"system_prompt\":\"");
        reveal_strlit("\",\"default_source_language\":\"");
        reveal_strlit("\",\"default_target_language\":\"");
        reveal_strlit("\"}");
        reveal_strlit("\"api_key\"");
        reveal_strlit("\"model\"");
        reveal_strlit("\"provider\"");
        reveal_strlit("\"system_prompt\"");
        reveal_strlit("\"default_source_language\"");
        reveal_strlit("\"default_target_language\"");
        assert(r@ =~= settings_json(s@));
    }
    r
}

/// Executable counterpart of `parse_member`.
fn scan_member(s: &Vec<char>, i: usize, name: &str) -> (r: Option<(Vec<char>, usize)>)
    requires
        i <= s@.len(),
    ensures
        match r {
            Some(p) => parse_member(s@, i as int, name@) == Some((p.0@, p.1 as int)) && p.1
                <= s@.len(),
            None => parse_member(s@, i as int, name@) is None,
        },
{
    let n = s.len();
    let j = ws_end(s, i);
    if !crate::event::match_lit(s, j, name) {
        return None;
    }
    let ll = name.unicode_len();
    let k = ws_end(s, j + ll);
    if !(k < n && s[k] == ':') {
        return None;
    }
    let m = ws_end(s, k + 1);
    scan_string(s, m)
}

/// Executable counterpart of `parse_settings_text`: parses the persisted
/// document back into a settings value.
pub fn parse_settings(text: &str) -> (r: Option<Settings>)
    ensures
        match r {
            Some(st) => parse_settings_text(text@) == Some(st@),
            None => parse_settings_text(text@) is None,
        },
{
    let cs = crate::text::chars_of_str(text);
    let s = &cs;
    let n = s.len();
    let i = ws_end(s, 0);
    if !(i < n && s[i] == '{') {
        return None;
    }
    let m1 = scan_member(s, i + 1, "\"api_key\"");
    match m1 {
        None => None,
        Some((v1, p1)) => {
            let c1 = ws_end(s, p1);
            if !(c1 < n && s[c1] == ',') {
                return None;
            }
            let m2 = scan_member(s, c1 + 1, "\"model\"");
            match m2 {
                None => None,
                Some((v2, p2)) => {
                    let c2 = ws_end(s, p2);
                    if !(c2 < n && s[c2] == ',') {
                        return None;
                    }
                    let m3 = scan_member(s, c2 + 1, "\"provider\"");
                    match m3 {
                        None => None,
                        Some((v3, p3)) => {
                            let c3 = ws_end(s, p3);
                            if !(c3 < n && s[c3] == ',') {
                                return None;
                            }
                            let m4 = scan_member(s, c3 + 1, "\"system_prompt\"");
                            match m4 {
                                None => None,
                                Some((v4, p4)) => {
                                    let c4 = ws_end(s, p4);
                                    if !(c4 < n && s[c4] == ',') {
                                        return None;
                                    }
                                    let m5 = scan_member(s, c4 + 1, "\"default_source_language\"");
                                    match m5 {
                                        None => None,
                                        Some((v5, p5)) => {
                                            let c5 = ws_end(s, p5);
                                            if !(c5 < n && s[c5] == ',') {
                                                return None;
                                            }
                                            let m6 = scan_member(
                                                s,
                                                c5 + 1,
                                                "\"default_target_language\"",
                                            );
                                            match m6 {
                                                None => None,
                                                Some((v6, p6)) => {
                                                    let e = ws_end(s, p6);
                                                    if !(e < n && s[e] == '}') {
                                                        return None;
                                                    }
                                                    let f = ws_end(s, e + 1);
                                                    if f != n {
                                                        return None;
                                                    }
                                                    Some(
                                                        Settings {
                                                            api_key: string_of_chars(&v1),
                                                            model: string_of_chars(&v2),
                                                            provider: string_of_chars(&v3),
                                                            system_prompt: string_of_chars(&v4),
                                                            default_source_language:
                                                                string_of_chars(&v5),
                                                            default_target_language:
                                                                string_of_chars(&v6),
                                                        },
                                                    )
                                                }
                                            }
                                        }
                                    }
                                }
                            }
                        }
                    }
                }
            }
        }
    }
}

/// One member of the rendered document parses back to its value and ends
/// exactly at the member's end.
proof fn lemma_member_parses(s: Seq<char>, i: int, name: Seq<char>, v: Seq<char>)
    requires
        0 <= i,
        i + member_render(name, v).len() <= s.len(),
        s.subrange(i, i + member_render(name, v).len() as int) == member_render(name, v),
        name.len() > 0,
        name[0] == '"',
    ensures
        parse_member(s, i, name) == Some((v, i + member_render(name, v).len())),
{
    let mr = member_render(name, v);
    let nl = name.len() as int;
    let el = esc_seq(v).len() as int;
    assert forall|k: int| 0 <= k < mr.len() implies s[i + k] == mr[k] by {
        assert(s.subrange(i, i + mr.len() as int)[k] == s[i + k]);
    }
    assert forall|k: int| 0 <= k < nl implies mr[k] == name[k] by {
        assert((name + seq![':', '"'])[k] == name[k]);
    }
    assert(mr[nl] == ':' && mr[nl + 1] == '"');
    assert forall|k: int| 0 <= k < el implies mr[nl + 2 + k] == esc_seq(v)[k] by {
        assert((name + seq![':', '"'] + esc_seq(v))[nl + 2 + k] == esc_seq(v)[k]);
    }
    assert(mr[nl + 2 + el] == '"');
    assert(s[i] == name[0]);
    assert(!is_ws(s[i]));
    assert(skip_ws(s, i) == i);
    assert(lit_at(s, i, name));
    assert(s[i + nl] == ':');
    assert(skip_ws(s, i + nl) == i + nl);
    assert(s[i + nl + 1] == '"');
    assert(skip_ws(s, i + nl + 1) == i + nl + 1);
    assert(s.subrange(i + nl + 2, i + nl + 2 + el) =~= esc_seq(v)) by {
        assert forall|k: int| 0 <= k < el implies s.subrange(i + nl + 2, i + nl + 2 + el)[k]
            == esc_seq(v)[k] by {
            assert(s.subrange(i + nl + 2, i + nl + 2 + el)[k] == s[i + nl + 2 + k]);
        }
    }
    assert(s[i + nl + 2 + el] == '"');
    lemma_escape_parses(s, v, i + nl + 2);
    assert(parse_scontent(s, i + nl + 2) == Some((v, i + nl + 2 + el + 1)));
    assert(parse_string(s, i + nl + 1) == Some((v, i + nl + 2 + el + 1)));
    assert(mr.len() == nl + 2 + el + 1);
}

/// Saving and loading round-trips: parsing the rendered document of any
/// settings value gives back exactly that value.
#[verifier::rlimit(100)]
pub proof fn lemma_settings_round_trip(s: SettingsView)
    ensures
        parse_settings_text(settings_json(s)) == Some(s),
{
    reveal_strlit("\"api_key\"");
    reveal_strlit("\"model\"");
    reveal_strlit("\"provider\"");
    reveal_strlit("\"system_prompt\"");
    reveal_strlit("\"default_source_language\"");
    reveal_strlit("\"default_target_language\"");
    let r = settings_json(s);
    let m1 = member_render("\"api_key\""@, s.api_key);
    let m2 = member_render("\"model\""@, s.model);
    let m3 = member_render("\"provider\""@, s.provider);
    let m4 = member_render("\"system_prompt\""@, s.system_prompt);
    let m5 = member_render("\"default_source_language\""@, s.default_source_language);
    let m6 = member_render("\"default_target_language\""@, s.default_target_language);
    let p1 = 1 + m1.len() as int;
    let p2 = p1 + 1 + m2.len() as int;
    let p3 = p2 + 1 + m3.len() as int;
    let p4 = p3 + 1 + m4.len() as int;
    let p5 = p4 + 1 + m5.len() as int;
    let p6 = p5 + 1 + m6.len() as int;
    assert(r.len() == p6 + 1);
    assert(r[0] == '{');
    assert(r.subrange(1, p1) =~= m1);
    assert(r[p1] == ',');
    assert(r.subrange(p1 + 1, p2) =~= m2);
    assert(r[p2] == ',');
    assert(r.subrange(p2 + 1, p3) =~= m3);
    assert(r[p3] == ',');
    assert(r.subrange(p3 + 1, p4) =~= m4);
    assert(r[p4] == ',');
    assert(r.subrange(p4 + 1, p5) =~= m5);
    assert(r[p5] == ',');
    assert(r.subrange(p5 + 1, p6) =~= m6);
    assert(r[p6] == '}');
    assert(skip_ws(r, 0) == 0);
    lemma_member_parses(r, 1, "\"api_key\""@, s.api_key);
    assert(skip_ws(r, p1) == p1);
    lemma_member_parses(r, p1 + 1, "\"model\""@, s.model);
    assert(skip_ws(r, p2) == p2);
    lemma_member_parses(r, p2 + 1, "\"provider\""@, s.provider);
    assert(skip_ws(r, p3) == p3);
    lemma_member_parses(r, p3 + 1, "\"system_prompt\""@, s.system_prompt);
    assert(skip_ws(r, p4) == p4);
    lemma_member_parses(r, p4 + 1, "\"default_source_language\""@, s.default_source_language);
    assert(skip_ws(r, p5) == p5);
    lemma_member_parses(r, p5 + 1, "\"default_target_language\""@, s.default_target_language);
    assert(skip_ws(r, p6) == p6);
    assert(skip_ws(r, p6 + 1) == r.len());
}

} // verus!
