//! Rendering: the fixed allowlist of keys, the line model of the output,
//! and the renderer that emits the section header, the allowlisted keys
//! present in the source, and the filtered `MimeType` line.

use vstd::prelude::*;
use vstd::string::*;
use crate::model::{AttrModel, Section, lookup_attr, mime_key};

verus! {

/// The ten keys that survive rewriting, in their fixed output order.
pub open spec fn allowlist() -> Seq<Seq<char>> {
    seq![
        "Version"@,
        "Type"@,
        "Name"@,
        "GenericName"@,
        "Comment"@,
        "TryExec"@,
        "Exec"@,
        "Icon"@,
        "Categories"@,
        "X-GNOME-UsesNotifications"@,
    ]
}

/// One attribute entry per key of `ks` that is present in `attrs`, in the
/// order of `ks`, each carrying its single looked-up value.
pub open spec fn present_keys(attrs: Seq<AttrModel>, ks: Seq<Seq<char>>) -> Seq<AttrModel>
    decreases ks.len(),
{
    if ks.len() == 0 {
        Seq::empty()
    } else {
        let rest = present_keys(attrs, ks.subrange(1, ks.len() as int));
        match lookup_attr(attrs, ks[0]) {
            Some(v) => seq![(ks[0], None::<Seq<char>>, seq![v])] + rest,
            None => rest,
        }
    }
}

/// A `Key=Value` line.
pub open spec fn attr_line(key: Seq<char>, value: Seq<char>) -> Seq<char> {
    key + seq!['='] + value
}

/// The lines of a list of single-valued attribute entries.
pub open spec fn lines_of(es: Seq<AttrModel>) -> Seq<Seq<char>> {
    es.map_values(|e: AttrModel| attr_line(e.0, e.2[0]))
}

/// The `Key=Value` lines of the allowlisted keys present in `attrs`.
pub open spec fn body_lines(attrs: Seq<AttrModel>) -> Seq<Seq<char>> {
    lines_of(present_keys(attrs, allowlist()))
}

/// The bracketed section header.
pub open spec fn header_line(name: Seq<char>) -> Seq<char> {
    seq!['['] + name + seq![']']
}

/// Every line of the rendered document, in order: the header, the
/// allowlisted keys present in the source, and last the `MimeType` line.
pub open spec fn rendered_lines(name: Seq<char>, attrs: Seq<AttrModel>, mime: Seq<char>) -> Seq<
    Seq<char>,
> {
    seq![header_line(name)] + body_lines(attrs) + seq![attr_line(mime_key(), mime)]
}

/// The rendered text: each line followed by one newline, the last included.
pub open spec fn flatten_lines(lines: Seq<Seq<char>>) -> Seq<char>
    decreases lines.len(),
{
    if lines.len() == 0 {
        Seq::empty()
    } else {
        lines[0] + seq!['\n'] + flatten_lines(lines.subrange(1, lines.len() as int))
    }
}

pub proof fn lemma_flatten_concat(a: Seq<Seq<char>>, b: Seq<Seq<char>>)
    ensures
        flatten_lines(a + b) == flatten_lines(a) + flatten_lines(b),
    decreases a.len(),
{
    if a.len() == 0 {
        assert(a + b =~= b);
        assert(flatten_lines(a) + flatten_lines(b) =~= flatten_lines(b));
    } else {
        let t = a.subrange(1, a.len() as int);
        assert((a + b).subrange(1, (a + b).len() as int) =~= t + b);
        lemma_flatten_concat(t, b);
        assert((a + b)[0] == a[0]);
        assert(flatten_lines(a + b) =~= flatten_lines(a) + flatten_lines(b));
    }
}

pub proof fn lemma_flatten_single(l: Seq<char>)
    ensures
        flatten_lines(seq![l]) == l + seq!['\n'],
{
    assert(seq![l].subrange(1, 1) =~= Seq::<Seq<char>>::empty());
    assert(flatten_lines(Seq::<Seq<char>>::empty()) == Seq::<char>::empty());
    assert(flatten_lines(seq![l]) =~= l + seq!['\n']);
}

/// The executable allowlist, whose views are exactly [`allowlist`].
fn allowlist_keys() -> (r: Vec<&'static str>)
    ensures
        r@.map_values(|k: &str| k@) == allowlist(),
{
    let v: Vec<&'static str> = vec![
        "Version",
        "Type",
        "Name",
        "GenericName",
        "Comment",
        "TryExec",
        "Exec",
        "Icon",
        "Categories",
        "X-GNOME-UsesNotifications",
    ];
    proof {
        assert(v@.map_values(|k: &str| k@) =~= allowlist());
    }
    v
}

/// Emits the output document for a validated section and an already
/// filtered `MimeType` value: the header with the section's own name, the
/// allowlisted keys present in the section in the fixed order, and the
/// `MimeType` line last, every line newline-terminated.
pub fn render(section: &Section, mime: &str) -> (r: String)
    ensures
        r@ == flatten_lines(rendered_lines(section@.0, section@.1, mime@)),
{
    let ghost attrs = section@.1;
    proof {
        reveal_strlit("[");
        reveal_strlit("]");
        reveal_strlit("=");
        reveal_strlit("\n");
        reveal_strlit("MimeType");
    }
    let mut out = String::new();
    out.append("[");
    out.append(section.name.as_str());
    out.append("]");
    out.append("\n");
    proof {
        assert(out@ =~= header_line(section@.0) + seq!['\n']);
        lemma_flatten_single(header_line(section@.0));
    }
    let keys = allowlist_keys();
    let ghost alls = allowlist();
    let mut i: usize = 0;
    proof {
        assert(alls.subrange(0, alls.len() as int) =~= alls);
        assert(out@ =~= flatten_lines(seq![header_line(section@.0)]) + flatten_lines(
            lines_of(present_keys(attrs, alls.subrange(0, 0))),
        ));
    }
    while i < keys.len()
        invariant
            i <= keys@.len(),
            alls == allowlist(),
            keys@.map_values(|k: &str| k@) == alls,
            keys@.len() == alls.len(),
            attrs == section@.1,
            "="@ == seq!['='],
            "\n"@ == seq!['\n'],
            out@ == flatten_lines(seq![header_line(section@.0)]) + flatten_lines(
                lines_of(present_keys(attrs, alls.subrange(0, i as int))),
            ),
        decreases keys@.len() - i,
    {
        let key: &str = keys[i];
        assert(key@ == alls[i as int]);
        let ghost prefix = alls.subrange(0, i as int);
        let ghost step = alls.subrange(0, i + 1);
        proof {
            lemma_present_keys_snoc(attrs, prefix, alls[i as int]);
            assert(step =~= prefix.push(alls[i as int]));
        }
        match crate::model::attr_value(section, key) {
            Some(v) => {
                out.append(key);
                out.append("=");
                out.append(v.as_str());
                out.append("\n");
                proof {
                    let entry = (alls[i as int], None::<Seq<char>>, seq![v@]);
                    assert(present_keys(attrs, step) =~= present_keys(attrs, prefix) + seq![entry]);
                    assert(lines_of(present_keys(attrs, step)) =~= lines_of(
                        present_keys(attrs, prefix),
                    ) + seq![attr_line(alls[i as int], v@)]);
                    lemma_flatten_concat(
                        lines_of(present_keys(attrs, prefix)),
                        seq![attr_line(alls[i as int], v@)],
                    );
                    lemma_flatten_single(attr_line(alls[i as int], v@));
                    assert(out@ =~= flatten_lines(seq![header_line(section@.0)]) + flatten_lines(
                        lines_of(present_keys(attrs, step)),
                    ));
                }
            },
            None => {
                proof {
                    assert(present_keys(attrs, step) =~= present_keys(attrs, prefix));
                }
            },
        }
        i += 1;
    }
    proof {
        assert(alls.subrange(0, alls.len() as int) =~= alls);
    }
    out.append("MimeType");
    out.append("=");
    out.append(mime);
    out.append("\n");
    proof {
        let lines = rendered_lines(section@.0, attrs, mime@);
        let mline = attr_line(mime_key(), mime@);
        assert(lines =~= (seq![header_line(section@.0)] + body_lines(attrs)) + seq![mline]);
        lemma_flatten_concat(seq![header_line(section@.0)], body_lines(attrs));
        lemma_flatten_concat(seq![header_line(section@.0)] + body_lines(attrs), seq![mline]);
        lemma_flatten_single(mline);
        assert(out@ =~= flatten_lines(lines));
    }
    out
}

/// Adding one key at the end of the key list appends at most one entry.
pub proof fn lemma_present_keys_snoc(attrs: Seq<AttrModel>, ks: Seq<Seq<char>>, k: Seq<char>)
    ensures
        present_keys(attrs, ks.push(k)) == (match lookup_attr(attrs, k) {
            Some(v) => present_keys(attrs, ks) + seq![(k, None::<Seq<char>>, seq![v])],
            None => present_keys(attrs, ks),
        }),
    decreases ks.len(),
{
    let p = ks.push(k);
    if ks.len() == 0 {
        let sub = p.subrange(1, p.len() as int);
        assert(p[0] == k);
        assert(sub =~= Seq::<Seq<char>>::empty());
        assert(present_keys(attrs, sub) =~= Seq::<AttrModel>::empty());
        match lookup_attr(attrs, k) {
            Some(v) => {
                assert(present_keys(attrs, p) == seq![(k, None::<Seq<char>>, seq![v])]
                    + present_keys(attrs, sub));
                assert(present_keys(attrs, p) =~= present_keys(attrs, ks) + seq![
                    (k, None::<Seq<char>>, seq![v]),
                ]);
            },
            None => {
                assert(present_keys(attrs, p) == present_keys(attrs, sub));
                assert(present_keys(attrs, p) =~= present_keys(attrs, ks));
            },
        }
    } else {
        let rest = ks.subrange(1, ks.len() as int);
        assert(p[0] == ks[0]);
        assert(p.subrange(1, p.len() as int) =~= rest.push(k));
        lemma_present_keys_snoc(attrs, rest, k);
        match lookup_attr(attrs, k) {
            Some(v) => {
                let e = seq![(k, None::<Seq<char>>, seq![v])];
                assert(present_keys(attrs, rest.push(k)) == present_keys(attrs, rest) + e);
                match lookup_attr(attrs, ks[0]) {
                    Some(v0) => {
                        let e0 = seq![(ks[0], None::<Seq<char>>, seq![v0])];
                        assert(present_keys(attrs, p) == e0 + (present_keys(attrs, rest) + e));
                        assert(present_keys(attrs, ks) == e0 + present_keys(attrs, rest));
                        assert(e0 + (present_keys(attrs, rest) + e) =~= (e0 + present_keys(
                            attrs,
                            rest,
                        )) + e);
                    },
                    None => {
                        assert(present_keys(attrs, p) == present_keys(attrs, rest) + e);
                        assert(present_keys(attrs, ks) == present_keys(attrs, rest));
                    },
                }
            },
            None => {
                assert(present_keys(attrs, rest.push(k)) == present_keys(attrs, rest));
                assert(present_keys(attrs, p) =~= present_keys(attrs, ks));
            },
        }
    }
}

} // verus!
