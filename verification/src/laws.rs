//! Laws of the pass, proved once and for all: a clean list is only
//! normalized, the pass is idempotent, and keys outside the allowlist
//! never reach the output.

use vstd::prelude::*;
use crate::mime::{all_tokens_ok, filter_tokens, token_denied, token_ok};
use crate::model::{desktop_entry_name, lookup_attr, mime_key, AttrModel, DocModel};
use crate::pipeline::spec_process;
use crate::render::{allowlist, attr_line, flatten_lines, header_line, lines_of, present_keys,
    rendered_lines};
use crate::text::{join_semis, split_semis};

verus! {

/// Filtering keeps a sequence whole when no token of it is denied.
pub proof fn lemma_filter_keeps_all(ts: Seq<Seq<char>>)
    requires
        forall|i: int| 0 <= i < ts.len() ==> !token_denied(#[trigger] ts[i]),
    ensures
        filter_tokens(ts) == ts,
    decreases ts.len(),
{
    reveal(Seq::filter);
    if ts.len() == 0 {
        assert(filter_tokens(ts) =~= ts);
    } else {
        let pre = ts.drop_last();
        assert forall|i: int| 0 <= i < pre.len() implies !token_denied(#[trigger] pre[i]) by {
            assert(pre[i] == ts[i]);
        }
        lemma_filter_keeps_all(pre);
        assert(!token_denied(ts.last()));
        assert(filter_tokens(ts) == filter_tokens(pre).push(ts.last()));
        assert(filter_tokens(pre).push(ts.last()) =~= ts);
    }
}

/// Every token the filter hands out stood in its input.
pub proof fn lemma_filter_sub(ts: Seq<Seq<char>>)
    ensures
        forall|i: int|
            0 <= i < filter_tokens(ts).len() ==> ts.contains(#[trigger] filter_tokens(ts)[i]),
    decreases ts.len(),
{
    reveal(Seq::filter);
    if ts.len() == 0 {
    } else {
        let pre = ts.drop_last();
        lemma_filter_sub(pre);
        assert forall|i: int|
            0 <= i < filter_tokens(ts).len() implies ts.contains(
            #[trigger] filter_tokens(ts)[i],
        ) by {
            let x = filter_tokens(ts)[i];
            if i < filter_tokens(pre).len() {
                assert(pre.contains(x));
                let j = choose|j: int| 0 <= j < pre.len() && pre[j] == x;
                assert(ts[j] == x);
            } else {
                assert(x == ts.last());
                assert(ts[ts.len() - 1] == x);
            }
        }
    }
}

/// A `MimeType` list whose tokens all parse, none of them denylisted, is
/// only normalized: filtering drops nothing and keeps the order, and the
/// value rendered for it is the original list with the trailing
/// terminator, if any, gone.
pub proof fn lemma_clean_list_only_normalized(raw: Seq<char>)
    requires
        forall|i: int|
            0 <= i < split_semis(raw).len() ==> !token_denied(#[trigger] split_semis(raw)[i]),
    ensures
        filter_tokens(split_semis(raw)) == split_semis(raw),
        join_semis(filter_tokens(split_semis(raw))) == join_semis(split_semis(raw)),
{
    lemma_filter_keeps_all(split_semis(raw));
}

/// The same, at the document level: on a valid single-section document
/// whose list holds no denylisted entry, the pass succeeds and renders the
/// `MimeType` value as the original list itself, normalized only in its
/// trailing terminator — nothing dropped, order kept.
pub proof fn lemma_clean_document_keeps_its_list(dm: DocModel)
    requires
        crate::model::doc_valid(dm),
        lookup_attr(dm[0].1, mime_key()) is Some,
        all_tokens_ok(split_semis(lookup_attr(dm[0].1, mime_key())->0)),
        forall|i: int|
            0 <= i < split_semis(lookup_attr(dm[0].1, mime_key())->0).len() ==> !token_denied(
                #[trigger] split_semis(lookup_attr(dm[0].1, mime_key())->0)[i],
            ),
    ensures
        spec_process(dm) == Ok::<Seq<char>, crate::model::ErrorModel>(
            flatten_lines(
                rendered_lines(
                    dm[0].0,
                    dm[0].1,
                    join_semis(split_semis(lookup_attr(dm[0].1, mime_key())->0)),
                ),
            ),
        ),
{
    lemma_clean_list_only_normalized(lookup_attr(dm[0].1, mime_key())->0);
}

/// Facts about the fixed key strings: none of them holds a `=`, the
/// `MimeType` key is not an allowlisted key, and the header line of a
/// valid document holds no `=` either.
proof fn lemma_key_literals()
    ensures
        forall|i: int|
            0 <= i < allowlist().len() ==> !(#[trigger] allowlist()[i]).contains('='),
        !mime_key().contains('='),
        !allowlist().contains(mime_key()),
        forall|j: int|
            0 <= j < header_line(desktop_entry_name()).len() ==> header_line(
                desktop_entry_name(),
            )[j] != '=',
{
    reveal_strlit("Version");
    reveal_strlit("Type");
    reveal_strlit("Name");
    reveal_strlit("GenericName");
    reveal_strlit("Comment");
    reveal_strlit("TryExec");
    reveal_strlit("Exec");
    reveal_strlit("Icon");
    reveal_strlit("Categories");
    reveal_strlit("X-GNOME-UsesNotifications");
    reveal_strlit("MimeType");
    reveal_strlit("Desktop Entry");
    assert forall|i: int|
        0 <= i < allowlist().len() implies !(#[trigger] allowlist()[i]).contains('=') by {
        assert(forall|j: int| 0 <= j < ("Version"@).len() ==> ("Version"@)[j] != '=');
        assert(forall|j: int| 0 <= j < ("Type"@).len() ==> ("Type"@)[j] != '=');
        assert(forall|j: int| 0 <= j < ("Name"@).len() ==> ("Name"@)[j] != '=');
        assert(forall|j: int| 0 <= j < ("GenericName"@).len() ==> ("GenericName"@)[j] != '=');
        assert(forall|j: int| 0 <= j < ("Comment"@).len() ==> ("Comment"@)[j] != '=');
        assert(forall|j: int| 0 <= j < ("TryExec"@).len() ==> ("TryExec"@)[j] != '=');
        assert(forall|j: int| 0 <= j < ("Exec"@).len() ==> ("Exec"@)[j] != '=');
        assert(forall|j: int| 0 <= j < ("Icon"@).len() ==> ("Icon"@)[j] != '=');
        assert(forall|j: int| 0 <= j < ("Categories"@).len() ==> ("Categories"@)[j] != '=');
        assert(forall|j: int|
            0 <= j < ("X-GNOME-UsesNotifications"@).len() ==> ("X-GNOME-UsesNotifications"@)[j]
                != '=');
    }
    assert(forall|j: int| 0 <= j < mime_key().len() ==> mime_key()[j] != '=');
    assert forall|i: int| 0 <= i < allowlist().len() implies allowlist()[i] != mime_key() by {
        assert(mime_key().len() == 8);
    }
    if allowlist().contains(mime_key()) {
        let i = choose|i: int|
            0 <= i < allowlist().len() && allowlist()[i] == mime_key();
        assert(false);
    }
    let h = header_line(desktop_entry_name());
    assert forall|j: int| 0 <= j < h.len() implies h[j] != '=' by {
        if j == 0 {
            assert(h[0] == '[');
        } else if j <= desktop_entry_name().len() {
            assert(h[j] == desktop_entry_name()[j - 1]);
        } else {
            assert(h[j] == ']');
        }
    }
}

/// Two `Key=Value` lines built from `=`-free keys are equal only when both
/// the keys and the values are.
proof fn lemma_attr_line_inj(k1: Seq<char>, v1: Seq<char>, k2: Seq<char>, v2: Seq<char>)
    requires
        attr_line(k1, v1) == attr_line(k2, v2),
        !k1.contains('='),
        !k2.contains('='),
    ensures
        k1 == k2,
        v1 == v2,
{
    let l1 = attr_line(k1, v1);
    let l2 = attr_line(k2, v2);
    if k1.len() < k2.len() {
        assert(l1[k1.len() as int] == '=');
        assert(l2[k1.len() as int] == k2[k1.len() as int]);
        assert(k2.contains('='));
        assert(false);
    } else if k2.len() < k1.len() {
        assert(l2[k2.len() as int] == '=');
        assert(l1[k2.len() as int] == k1[k2.len() as int]);
        assert(k1.contains('='));
        assert(false);
    } else {
        assert forall|j: int| 0 <= j < k1.len() implies k1[j] == k2[j] by {
            assert(l1[j] == k1[j]);
            assert(l2[j] == k2[j]);
        }
        assert(k1 =~= k2);
        assert(l1.len() == k1.len() + 1 + v1.len());
        assert(l2.len() == k2.len() + 1 + v2.len());
        assert(l1.len() == l2.len());
        assert(v1.len() == v2.len());
        assert forall|j: int| 0 <= j < v1.len() implies v1[j] == v2[j] by {
            assert(l1[k1.len() + 1 + j] == v1[j]);
            assert(l2[k2.len() + 1 + j] == v2[j]);
        }
        assert(v1 =~= v2);
    }
}

/// Every entry the present-key selection emits bears a key of its list.
pub proof fn lemma_present_keys_keys(attrs: Seq<AttrModel>, ks: Seq<Seq<char>>)
    ensures
        forall|i: int|
            0 <= i < present_keys(attrs, ks).len() ==> ks.contains(
                (#[trigger] present_keys(attrs, ks)[i]).0,
            ),
    decreases ks.len(),
{
    if ks.len() == 0 {
    } else {
        let rest = ks.subrange(1, ks.len() as int);
        lemma_present_keys_keys(attrs, rest);
        assert forall|i: int|
            0 <= i < present_keys(attrs, ks).len() implies ks.contains(
            (#[trigger] present_keys(attrs, ks)[i]).0,
        ) by {
            let pk = present_keys(attrs, ks);
            match lookup_attr(attrs, ks[0]) {
                Some(v) => {
                    if i == 0 {
                        assert(pk[0].0 == ks[0]);
                        assert(ks[0] == ks[0 as int]);
                    } else {
                        assert(pk[i] == present_keys(attrs, rest)[i - 1]);
                        let j = choose|j: int|
                            0 <= j < rest.len() && rest[j] == present_keys(attrs, rest)[i - 1].0;
                        assert(ks[j + 1] == pk[i].0);
                    }
                },
                None => {
                    assert(pk[i] == present_keys(attrs, rest)[i]);
                    let j = choose|j: int|
                        0 <= j < rest.len() && rest[j] == present_keys(attrs, rest)[i].0;
                    assert(ks[j + 1] == pk[i].0);
                },
            }
        }
    }
}

/// A key outside the allowlist, other than `MimeType`, yields no line of
/// the rendered output, whatever value it carried in the input.
pub proof fn lemma_foreign_key_absent(
    name: Seq<char>,
    attrs: Seq<AttrModel>,
    mime: Seq<char>,
    k: Seq<char>,
    v: Seq<char>,
)
    requires
        name == desktop_entry_name(),
        !allowlist().contains(k),
        k != mime_key(),
        !k.contains('='),
    ensures
        !rendered_lines(name, attrs, mime).contains(attr_line(k, v)),
{
    lemma_key_literals();
    lemma_present_keys_keys(attrs, allowlist());
    let lines = rendered_lines(name, attrs, mime);
    let pk = present_keys(attrs, allowlist());
    let line = attr_line(k, v);
    if lines.contains(line) {
        let i = choose|i: int| 0 <= i < lines.len() && lines[i] == line;
        assert(lines.len() == pk.len() + 2);
        if i == 0 {
            let h = header_line(name);
            assert(h == line);
            assert(h.len() == k.len() + 1 + v.len());
            assert(line[k.len() as int] == '=');
            assert(h[k.len() as int] != '=');
            assert(false);
        } else if i <= pk.len() {
            let e = pk[i - 1];
            assert(lines[i] == lines_of(pk)[i - 1]);
            assert(lines_of(pk)[i - 1] == attr_line(e.0, e.2[0]));
            let j = choose|j: int| 0 <= j < allowlist().len() && allowlist()[j] == e.0;
            assert(!e.0.contains('='));
            lemma_attr_line_inj(k, v, e.0, e.2[0]);
            assert(allowlist().contains(k));
            assert(false);
        } else {
            assert(i == pk.len() + 1);
            assert(lines[i] == attr_line(mime_key(), mime));
            lemma_attr_line_inj(k, v, mime_key(), mime);
            assert(false);
        }
    }
}

/// No two allowlisted keys are the same.
proof fn lemma_allowlist_distinct()
    ensures
        forall|i: int, j: int|
            0 <= i < j < allowlist().len() ==> allowlist()[i] != allowlist()[j],
{
    reveal_strlit("Version");
    reveal_strlit("Type");
    reveal_strlit("Name");
    reveal_strlit("GenericName");
    reveal_strlit("Comment");
    reveal_strlit("TryExec");
    reveal_strlit("Exec");
    reveal_strlit("Icon");
    reveal_strlit("Categories");
    reveal_strlit("X-GNOME-UsesNotifications");
    assert forall|i: int, j: int|
        0 <= i < j < allowlist().len() implies allowlist()[i] != allowlist()[j] by {
        assert(("Version"@).len() == 7);
        assert(("Type"@).len() == 4);
        assert(("Name"@).len() == 4);
        assert(("GenericName"@).len() == 11);
        assert(("Comment"@).len() == 7);
        assert(("TryExec"@).len() == 7);
        assert(("Exec"@).len() == 4);
        assert(("Icon"@).len() == 4);
        assert(("Categories"@).len() == 10);
        assert(("X-GNOME-UsesNotifications"@).len() == 25);
        assert(("Type"@)[0] != ("Name"@)[0]);
        assert(("Type"@)[0] != ("Exec"@)[0]);
        assert(("Type"@)[0] != ("Icon"@)[0]);
        assert(("Name"@)[0] != ("Exec"@)[0]);
        assert(("Name"@)[0] != ("Icon"@)[0]);
        assert(("Exec"@)[0] != ("Icon"@)[0]);
        assert(("Version"@)[0] != ("Comment"@)[0]);
        assert(("Version"@)[0] != ("TryExec"@)[0]);
        assert(("Comment"@)[0] != ("TryExec"@)[0]);
    }
}

/// Entries whose keys all differ from `key` do not affect a lookup.
proof fn lemma_lookup_skip(prefix: Seq<AttrModel>, tail: Seq<AttrModel>, key: Seq<char>)
    requires
        forall|i: int| 0 <= i < prefix.len() ==> (#[trigger] prefix[i]).0 != key,
    ensures
        lookup_attr(prefix + tail, key) == lookup_attr(tail, key),
    decreases prefix.len(),
{
    if prefix.len() == 0 {
        assert(prefix + tail =~= tail);
    } else {
        let rest = prefix.subrange(1, prefix.len() as int);
        assert((prefix + tail)[0] == prefix[0]);
        assert((prefix + tail).subrange(1, (prefix + tail).len() as int) =~= rest + tail);
        assert forall|i: int| 0 <= i < rest.len() implies (#[trigger] rest[i]).0 != key by {
            assert(rest[i] == prefix[i + 1]);
        }
        lemma_lookup_skip(rest, tail, key);
    }
}

/// What a lookup finds in a present-key selection followed by further
/// entries: the source's own value for a key of the (duplicate-free)
/// list, and otherwise whatever the further entries hold.
proof fn lemma_lookup_present_keys(
    attrs: Seq<AttrModel>,
    ks: Seq<Seq<char>>,
    key: Seq<char>,
    tail: Seq<AttrModel>,
)
    requires
        forall|i: int, j: int| 0 <= i < j < ks.len() ==> ks[i] != ks[j],
    ensures
        ks.contains(key) ==> lookup_attr(present_keys(attrs, ks) + tail, key) == (
        match lookup_attr(attrs, key) {
            Some(v) => Some(v),
            None => lookup_attr(tail, key),
        }),
        !ks.contains(key) ==> lookup_attr(present_keys(attrs, ks) + tail, key) == lookup_attr(
            tail,
            key,
        ),
    decreases ks.len(),
{
    if ks.len() == 0 {
        assert(present_keys(attrs, ks) + tail =~= tail);
    } else {
        let rest = ks.subrange(1, ks.len() as int);
        assert forall|i: int, j: int| 0 <= i < j < rest.len() implies rest[i] != rest[j] by {
            assert(rest[i] == ks[i + 1]);
            assert(rest[j] == ks[j + 1]);
        }
        let pkr = present_keys(attrs, rest) + tail;
        lemma_lookup_present_keys(attrs, rest, key, tail);
        assert(ks.contains(key) == (ks[0] == key || rest.contains(key))) by {
            if ks.contains(key) && ks[0] != key {
                let i = choose|i: int| 0 <= i < ks.len() && ks[i] == key;
                assert(rest[i - 1] == key);
                assert(rest.contains(key));
            }
            if rest.contains(key) {
                let i = choose|i: int| 0 <= i < rest.len() && rest[i] == key;
                assert(ks[i + 1] == key);
                assert(ks.contains(key));
            }
            if ks[0] == key {
                assert(ks.contains(key));
            }
        }
        if rest.contains(key) {
            let i = choose|i: int| 0 <= i < rest.len() && rest[i] == key;
            assert(ks[i + 1] == key);
            assert(ks[0] != key);
        }
        match lookup_attr(attrs, ks[0]) {
            Some(v0) => {
                let e0 = seq![(ks[0], None::<Seq<char>>, seq![v0])];
                assert(present_keys(attrs, ks) + tail =~= e0 + pkr);
                if ks[0] == key {
                    assert((e0 + pkr)[0] == e0[0]);
                    assert(lookup_attr(e0 + pkr, key) == Some(v0));
                } else {
                    assert forall|i: int| 0 <= i < e0.len() implies (#[trigger] e0[i]).0
                        != key by {}
                    lemma_lookup_skip(e0, pkr, key);
                }
            },
            None => {
                assert(present_keys(attrs, ks) + tail =~= pkr);
                if ks[0] == key {
                    assert(!rest.contains(key));
                }
            },
        }
    }
}

/// Two attribute lists that agree on every lookup of a key list produce
/// the same present-key selection.
proof fn lemma_present_keys_congruent(
    a1: Seq<AttrModel>,
    a2: Seq<AttrModel>,
    ks: Seq<Seq<char>>,
)
    requires
        forall|j: int|
            0 <= j < ks.len() ==> lookup_attr(a2, #[trigger] ks[j]) == lookup_attr(a1, ks[j]),
    ensures
        present_keys(a2, ks) == present_keys(a1, ks),
    decreases ks.len(),
{
    if ks.len() == 0 {
    } else {
        let rest = ks.subrange(1, ks.len() as int);
        assert forall|j: int|
            0 <= j < rest.len() implies lookup_attr(a2, #[trigger] rest[j]) == lookup_attr(
            a1,
            rest[j],
        ) by {
            assert(rest[j] == ks[j + 1]);
        }
        lemma_present_keys_congruent(a1, a2, rest);
        assert(lookup_attr(a2, ks[0]) == lookup_attr(a1, ks[0]));
    }
}

/// The document that a faithful re-parse of the rendered output denotes:
/// one `Desktop Entry` section holding exactly the allowlisted keys
/// present in the source, in allowlist order, and then the filtered
/// `MimeType` value. Meaningful only when the pass succeeds on `dm`.
pub open spec fn rendered_doc(dm: DocModel) -> DocModel {
    let attrs = dm[0].1;
    let mime = join_semis(filter_tokens(split_semis(lookup_attr(attrs, mime_key())->0)));
    seq![
        (
            dm[0].0,
            present_keys(attrs, allowlist()) + seq![
                (mime_key(), None::<Seq<char>>, seq![mime]),
            ],
        ),
    ]
}

/// Idempotence of the pass: when it succeeds on a document, running it
/// again on the document its own output denotes succeeds too, with the
/// very same output.
pub proof fn lemma_idempotent(dm: DocModel)
    requires
        spec_process(dm) is Ok,
    ensures
        spec_process(rendered_doc(dm)) == spec_process(dm),
{
    broadcast use Seq::lemma_filter_pred;

    lemma_key_literals();
    lemma_allowlist_distinct();
    let name = dm[0].0;
    let attrs = dm[0].1;
    let raw = lookup_attr(attrs, mime_key())->0;
    let ts = split_semis(raw);
    let kept = filter_tokens(ts);
    let mime = join_semis(kept);
    let dm2 = rendered_doc(dm);
    let pk = present_keys(attrs, allowlist());
    let mime_entry = seq![(mime_key(), None::<Seq<char>>, seq![mime])];
    let attrs2 = pk + mime_entry;
    assert(dm2.len() == 1 && dm2[0].0 == name && dm2[0].1 == attrs2);
    assert(crate::model::doc_valid(dm2));

    // The MimeType lookup in the rendered document finds the filtered value.
    lemma_lookup_present_keys(attrs, allowlist(), mime_key(), mime_entry);
    assert(lookup_attr(mime_entry, mime_key()) == Some(mime)) by {
        assert(mime_entry[0].0 == mime_key());
        assert(mime_entry[0].2.len() == 1);
        assert(mime_entry[0].2[0] == mime);
    }
    assert(lookup_attr(attrs2, mime_key()) == Some(mime));

    // The surviving tokens are non-empty, free of `;`, well-formed and
    // not denied, so splitting the joined value recovers them exactly.
    lemma_filter_sub(ts);
    crate::text::lemma_split_tokens_no_semi(raw);
    assert forall|i: int| 0 <= i < kept.len() implies token_ok(#[trigger] kept[i]) by {
        let j = choose|j: int| 0 <= j < ts.len() && ts[j] == kept[i];
        assert(token_ok(ts[j]));
    }
    assert forall|i: int| 0 <= i < kept.len() implies !(#[trigger] kept[i]).contains(';') by {
        let j = choose|j: int| 0 <= j < ts.len() && ts[j] == kept[i];
        assert(!ts[j].contains(';'));
    }
    assert forall|i: int| 0 <= i < kept.len() implies (#[trigger] kept[i]).len() > 0 by {
        assert(token_ok(kept[i]));
    }
    crate::text::lemma_split_join(kept);
    assert(split_semis(mime) == kept);
    assert(all_tokens_ok(kept));

    // Filtering the already filtered list drops nothing.
    assert forall|i: int| 0 <= i < kept.len() implies !token_denied(#[trigger] kept[i]) by {}
    lemma_filter_keeps_all(kept);
    assert(join_semis(filter_tokens(split_semis(mime))) == mime);

    // Every allowlisted key looks up in the rendered document to what it
    // looked up to in the source, so the body lines agree.
    assert forall|j: int|
        0 <= j < allowlist().len() implies lookup_attr(attrs2, #[trigger] allowlist()[j])
        == lookup_attr(attrs, allowlist()[j]) by {
        let k = allowlist()[j];
        assert(allowlist().contains(k));
        assert(k != mime_key());
        lemma_lookup_present_keys(attrs, allowlist(), k, mime_entry);
        assert(lookup_attr(mime_entry, k) is None) by {
            assert(mime_entry[0].0 != k);
            assert(mime_entry.subrange(1, 1) =~= Seq::<AttrModel>::empty());
            assert(lookup_attr(Seq::<AttrModel>::empty(), k) is None);
        }
    }
    lemma_present_keys_congruent(attrs, attrs2, allowlist());
    assert(rendered_lines(dm2[0].0, dm2[0].1, mime) == rendered_lines(name, attrs, mime));
    assert(spec_process(dm2) == spec_process(dm));
}

} // verus!
