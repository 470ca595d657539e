//! Media-type handling: the trusted bridge to the media-type parser, the
//! fixed denylist, and the filtering of a `MimeType` token list.

use vstd::prelude::*;
use vstd::string::*;
use crate::model::{DesktopError, ErrorModel};
use crate::text::{join_mime_list, join_semis, lower, split_mime_list, split_semis, str_eq_fold,
    str_views};

verus! {

/// The essence a media-type token parses to: its type, and its subtype
/// with the `+suffix` kept attached — or nothing, when the token is
/// malformed. The result depends on the token alone.
pub uninterp spec fn mime_essence(t: Seq<char>) -> Option<(Seq<char>, Seq<char>)>;

/// Relies on `mediatype::MediaType::parse`: a token parses to a type,
/// a subtype and an optional `+suffix`, or fails; the empty string fails.
/// The returned strings are the parsed names as they stand in the token.
#[verifier::external_body]
fn parse_media_type(token: &str) -> (r: Option<(String, String)>)
    ensures
        match r {
            Some(p) => mime_essence(token@) == Some((p.0@, p.1@)),
            None => mime_essence(token@) is None,
        },
        token@.len() == 0 ==> r is None,
{
    match mediatype::MediaType::parse(token) {
        Ok(m) => {
            let sub = match m.suffix {
                Some(sfx) => format!("{}+{}", m.subty.as_str(), sfx.as_str()),
                None => m.subty.as_str().to_string(),
            };
            Some((m.ty.as_str().to_string(), sub))
        },
        Err(_) => None,
    }
}

/// The ten media types stripped from every `MimeType` list, as
/// lower-case (type, subtype) pairs. Matching is exact up to ASCII case.
pub open spec fn denylist() -> Seq<(Seq<char>, Seq<char>)> {
    seq![
        ("text"@, "html"@),
        ("text"@, "rtf"@),
        ("application"@, "vnd.ms-word.document.macroenabled.12"@),
        ("text"@, "plain"@),
        ("application"@, "vnd.openxmlformats-officedocument.wordprocessingml.document"@),
        ("text"@, "x-markdown"@),
        ("application"@, "vnd.oasis.opendocument.text"@),
        ("application"@, "pdf"@),
        ("application"@, "xhtml+xml"@),
        ("application"@, "x-ruby"@),
    ]
}

/// A token is well-formed when it is non-empty and parses.
pub open spec fn token_ok(t: Seq<char>) -> bool {
    t.len() > 0 && mime_essence(t) is Some
}

/// The case-folded essence of a well-formed token.
pub open spec fn essence_folded(t: Seq<char>) -> (Seq<char>, Seq<char>) {
    let e = mime_essence(t).unwrap();
    (lower(e.0), lower(e.1))
}

/// A well-formed token the denylist strikes out.
pub open spec fn token_denied(t: Seq<char>) -> bool {
    token_ok(t) && denylist().contains(essence_folded(t))
}

/// The surviving tokens, in source order.
pub open spec fn filter_tokens(ts: Seq<Seq<char>>) -> Seq<Seq<char>> {
    ts.filter(|t: Seq<char>| !token_denied(t))
}

pub open spec fn all_tokens_ok(ts: Seq<Seq<char>>) -> bool {
    forall|i: int| 0 <= i < ts.len() ==> token_ok(#[trigger] ts[i])
}

/// Index of the first malformed token, or `ts.len()` if every one is
/// well-formed.
pub open spec fn first_bad_token(ts: Seq<Seq<char>>) -> int
    decreases ts.len(),
{
    if ts.len() == 0 {
        0
    } else if !token_ok(ts[0]) {
        0
    } else {
        1 + first_bad_token(ts.subrange(1, ts.len() as int))
    }
}

pub proof fn lemma_first_bad_token_is(ts: Seq<Seq<char>>, k: int)
    requires
        0 <= k < ts.len(),
        forall|j: int| 0 <= j < k ==> token_ok(#[trigger] ts[j]),
        !token_ok(ts[k]),
    ensures
        first_bad_token(ts) == k,
    decreases ts.len(),
{
    if k == 0 {
    } else {
        let t = ts.subrange(1, ts.len() as int);
        assert forall|j: int| 0 <= j < k - 1 implies token_ok(#[trigger] t[j]) by {
            assert(t[j] == ts[j + 1]);
        }
        assert(t[k - 1] == ts[k]);
        lemma_first_bad_token_is(t, k - 1);
    }
}

/// If no uppercase ASCII letter occurs, case folding is the identity.
pub proof fn lemma_lower_fixed(s: Seq<char>)
    requires
        forall|i: int|
            0 <= i < s.len() ==> !('A' as u32 <= (#[trigger] s[i]) as u32 && s[i] as u32
                <= 'Z' as u32),
    ensures
        lower(s) == s,
{
    assert(lower(s) =~= s);
}

/// Each string the denylist is built of is already lower-case.
proof fn lemma_denylist_folded()
    ensures
        lower("text"@) == "text"@,
        lower("application"@) == "application"@,
        lower("html"@) == "html"@,
        lower("rtf"@) == "rtf"@,
        lower("vnd.ms-word.document.macroenabled.12"@)
            == "vnd.ms-word.document.macroenabled.12"@,
        lower("plain"@) == "plain"@,
        lower("vnd.openxmlformats-officedocument.wordprocessingml.document"@)
            == "vnd.openxmlformats-officedocument.wordprocessingml.document"@,
        lower("x-markdown"@) == "x-markdown"@,
        lower("vnd.oasis.opendocument.text"@) == "vnd.oasis.opendocument.text"@,
        lower("pdf"@) == "pdf"@,
        lower("xhtml+xml"@) == "xhtml+xml"@,
        lower("x-ruby"@) == "x-ruby"@,
{
    reveal_strlit("text");
    reveal_strlit("application");
    reveal_strlit("html");
    reveal_strlit("rtf");
    reveal_strlit("vnd.ms-word.document.macroenabled.12");
    reveal_strlit("plain");
    reveal_strlit("vnd.openxmlformats-officedocument.wordprocessingml.document");
    reveal_strlit("x-markdown");
    reveal_strlit("vnd.oasis.opendocument.text");
    reveal_strlit("pdf");
    reveal_strlit("xhtml+xml");
    reveal_strlit("x-ruby");
    lemma_lower_fixed("text"@);
    lemma_lower_fixed("application"@);
    lemma_lower_fixed("html"@);
    lemma_lower_fixed("rtf"@);
    lemma_lower_fixed("vnd.ms-word.document.macroenabled.12"@);
    lemma_lower_fixed("plain"@);
    lemma_lower_fixed("vnd.openxmlformats-officedocument.wordprocessingml.document"@);
    lemma_lower_fixed("x-markdown"@);
    lemma_lower_fixed("vnd.oasis.opendocument.text"@);
    lemma_lower_fixed("pdf"@);
    lemma_lower_fixed("xhtml+xml"@);
    lemma_lower_fixed("x-ruby"@);
}

/// Whether a parsed essence matches a denylist entry, up to ASCII case.
fn is_denied(ty: &str, sub: &str) -> (r: bool)
    ensures
        r == denylist().contains((lower(ty@), lower(sub@))),
{
    let text = str_eq_fold(ty, "text");
    let application = str_eq_fold(ty, "application");
    let r = (text && (str_eq_fold(sub, "html") || str_eq_fold(sub, "rtf") || str_eq_fold(
        sub,
        "plain",
    ) || str_eq_fold(sub, "x-markdown"))) || (application && (str_eq_fold(
        sub,
        "vnd.ms-word.document.macroenabled.12",
    ) || str_eq_fold(sub, "vnd.openxmlformats-officedocument.wordprocessingml.document")
        || str_eq_fold(sub, "vnd.oasis.opendocument.text") || str_eq_fold(sub, "pdf")
        || str_eq_fold(sub, "xhtml+xml") || str_eq_fold(sub, "x-ruby")));
    proof {
        lemma_denylist_folded();
        reveal_strlit("text");
        reveal_strlit("application");
        let pair = (lower(ty@), lower(sub@));
        if r {
            assert(denylist().contains(pair)) by {
                if lower(ty@) == "text"@ {
                    if lower(sub@) == "html"@ {
                        assert(denylist()[0] == pair);
                    } else if lower(sub@) == "rtf"@ {
                        assert(denylist()[1] == pair);
                    } else if lower(sub@) == "plain"@ {
                        assert(denylist()[3] == pair);
                    } else {
                        assert(denylist()[5] == pair);
                    }
                } else {
                    if lower(sub@) == "vnd.ms-word.document.macroenabled.12"@ {
                        assert(denylist()[2] == pair);
                    } else if lower(sub@)
                        == "vnd.openxmlformats-officedocument.wordprocessingml.document"@ {
                        assert(denylist()[4] == pair);
                    } else if lower(sub@) == "vnd.oasis.opendocument.text"@ {
                        assert(denylist()[6] == pair);
                    } else if lower(sub@) == "pdf"@ {
                        assert(denylist()[7] == pair);
                    } else if lower(sub@) == "xhtml+xml"@ {
                        assert(denylist()[8] == pair);
                    } else {
                        assert(denylist()[9] == pair);
                    }
                }
            }
        } else {
            if denylist().contains(pair) {
                let i = choose|i: int| 0 <= i < denylist().len() && denylist()[i] == pair;
                assert(false);
            }
        }
    }
    r
}

/// Splits a raw `MimeType` value on `;` (terminator semantics), parses
/// every token, strikes denylisted ones, and joins the survivors with `;`
/// and no trailing terminator. Fails on the first malformed token,
/// carrying that token.
pub fn filter_mime_value(raw: &str) -> (r: Result<String, DesktopError>)
    ensures
        match r {
            Ok(s) => all_tokens_ok(split_semis(raw@)) && s@ == join_semis(
                filter_tokens(split_semis(raw@)),
            ),
            Err(e) => !all_tokens_ok(split_semis(raw@)) && e@ == ErrorModel::MalformedMediaType(
                split_semis(raw@)[first_bad_token(split_semis(raw@))],
            ),
        },
{
    broadcast use Seq::lemma_filter_push;

    let tokens = split_mime_list(raw);
    let ghost ts = split_semis(raw@);
    let mut kept: Vec<String> = Vec::new();
    let mut i: usize = 0;
    proof {
        assert(ts.subrange(0, 0) =~= Seq::<Seq<char>>::empty());
        reveal(Seq::filter);
        assert(str_views(kept@) =~= filter_tokens(ts.subrange(0, 0)));
    }
    while i < tokens.len()
        invariant
            i <= tokens@.len(),
            ts == split_semis(raw@),
            str_views(tokens@) == ts,
            ts.len() == tokens@.len(),
            forall|j: int| 0 <= j < i ==> token_ok(#[trigger] ts[j]),
            str_views(kept@) == filter_tokens(ts.subrange(0, i as int)),
        decreases tokens@.len() - i,
    {
        let t: &String = &tokens[i];
        assert(t@ == ts[i as int]);
        match parse_media_type(t.as_str()) {
            None => {
                proof {
                    assert(!token_ok(ts[i as int]));
                    lemma_first_bad_token_is(ts, i as int);
                    assert(!all_tokens_ok(ts));
                }
                return Err(DesktopError::MalformedMediaType(t.clone()));
            },
            Some(essence) => {
                let keep = !is_denied(essence.0.as_str(), essence.1.as_str());
                assert(token_ok(ts[i as int]));
                assert(keep == !token_denied(ts[i as int]));
                proof {
                    broadcast use Seq::lemma_filter_push;

                    let prefix = ts.subrange(0, i as int);
                    assert(ts.subrange(0, i + 1) =~= prefix.push(ts[i as int]));
                    assert(filter_tokens(prefix.push(ts[i as int])) == (if !token_denied(
                        ts[i as int],
                    ) {
                        filter_tokens(prefix).push(ts[i as int])
                    } else {
                        filter_tokens(prefix)
                    }));
                }
                if keep {
                    kept.push(t.clone());
                    proof {
                        assert(str_views(kept@) =~= filter_tokens(ts.subrange(0, i as int)).push(
                            ts[i as int],
                        ));
                    }
                }
                i += 1;
            },
        }
    }
    proof {
        assert(ts.subrange(0, ts.len() as int) =~= ts);
    }
    Ok(join_mime_list(&kept))
}

} // verus!
