//! Character and string helpers: ASCII case folding, and splitting and
//! joining of `;`-terminated lists.

use vstd::prelude::*;
use vstd::string::*;

verus! {

/// ASCII lower-casing of a single character; everything outside `A`..`Z`
/// is left as it is.
pub open spec fn lower_char(c: char) -> char {
    if 'A' as u32 <= c as u32 && c as u32 <= 'Z' as u32 {
        (((c as u32) + 32) as u8) as char
    } else {
        c
    }
}

/// ASCII lower-casing of a character sequence.
pub open spec fn lower(s: Seq<char>) -> Seq<char> {
    s.map_values(|c: char| lower_char(c))
}

/// Executable ASCII lower-casing of one character.
pub fn lower_char_x(c: char) -> (r: char)
    ensures
        r == lower_char(c),
{
    let u = c as u32;
    if 'A' as u32 <= u && u <= 'Z' as u32 {
        ((u + 32) as u8) as char
    } else {
        c
    }
}

/// Equality of two strings up to ASCII case.
pub fn str_eq_fold(a: &str, b: &str) -> (r: bool)
    ensures
        r == (lower(a@) == lower(b@)),
{
    let alen = a.unicode_len();
    let blen = b.unicode_len();
    if alen != blen {
        assert(lower(a@).len() != lower(b@).len());
        return false;
    }
    let mut i: usize = 0;
    while i < alen
        invariant
            i <= alen,
            alen == a@.len(),
            alen == b@.len(),
            forall|j: int| 0 <= j < i ==> lower_char(a@[j]) == lower_char(b@[j]),
        decreases alen - i,
    {
        let la = lower_char_x(a.get_char(i));
        let lb = lower_char_x(b.get_char(i));
        if la != lb {
            assert(lower(a@)[i as int] != lower(b@)[i as int]);
            return false;
        }
        i += 1;
    }
    assert(lower(a@) =~= lower(b@));
    true
}

/// Exact equality of two strings.
pub fn str_eq(a: &str, b: &str) -> (r: bool)
    ensures
        r == (a@ == b@),
{
    let alen = a.unicode_len();
    let blen = b.unicode_len();
    if alen != blen {
        return false;
    }
    let mut i: usize = 0;
    while i < alen
        invariant
            i <= alen,
            alen == a@.len(),
            alen == b@.len(),
            forall|j: int| 0 <= j < i ==> a@[j] == b@[j],
        decreases alen - i,
    {
        if a.get_char(i) != b.get_char(i) {
            return false;
        }
        i += 1;
    }
    assert(a@ =~= b@);
    true
}

/// Index of the first `;` in `s`, or `s.len()` if there is none.
pub open spec fn first_semi(s: Seq<char>) -> int
    decreases s.len(),
{
    if s.len() == 0 {
        0
    } else if s[0] == ';' {
        0
    } else {
        1 + first_semi(s.subrange(1, s.len() as int))
    }
}

pub proof fn lemma_first_semi(s: Seq<char>)
    ensures
        0 <= first_semi(s) <= s.len(),
        forall|j: int| 0 <= j < first_semi(s) ==> s[j] != ';',
        first_semi(s) < s.len() ==> s[first_semi(s)] == ';',
    decreases s.len(),
{
    if s.len() == 0 {
    } else if s[0] == ';' {
    } else {
        let t = s.subrange(1, s.len() as int);
        lemma_first_semi(t);
        assert forall|j: int| 0 <= j < first_semi(s) implies s[j] != ';' by {
            if j > 0 {
                assert(t[j - 1] == s[j]);
            }
        }
        if first_semi(s) < s.len() {
            assert(t[first_semi(t)] == s[first_semi(s)]);
        }
    }
}

/// The exact index of the first `;`, given where it stands.
pub proof fn lemma_first_semi_is(s: Seq<char>, k: int)
    requires
        0 <= k < s.len(),
        forall|j: int| 0 <= j < k ==> s[j] != ';',
        s[k] == ';',
    ensures
        first_semi(s) == k,
    decreases s.len(),
{
    if k == 0 {
    } else {
        let t = s.subrange(1, s.len() as int);
        assert forall|j: int| 0 <= j < k - 1 implies t[j] != ';' by {
            assert(t[j] == s[j + 1]);
        }
        lemma_first_semi_is(t, k - 1);
    }
}

pub proof fn lemma_first_semi_none(s: Seq<char>)
    requires
        forall|j: int| 0 <= j < s.len() ==> s[j] != ';',
    ensures
        first_semi(s) == s.len(),
    decreases s.len(),
{
    if s.len() == 0 {
    } else {
        let t = s.subrange(1, s.len() as int);
        lemma_first_semi_none(t);
    }
}

/// Splitting on `;` with terminator semantics: a trailing `;` closes the
/// last token instead of opening an empty one, so `a/b;c/d;` holds exactly
/// two tokens and the empty string holds none.
pub open spec fn split_semis(s: Seq<char>) -> Seq<Seq<char>>
    decreases s.len(),
{
    if s.len() == 0 {
        Seq::empty()
    } else {
        let i = first_semi(s);
        if 0 <= i && i < s.len() {
            seq![s.subrange(0, i)] + split_semis(s.subrange(i + 1, s.len() as int))
        } else {
            seq![s]
        }
    }
}

/// No token produced by splitting contains a `;`.
pub proof fn lemma_split_tokens_no_semi(s: Seq<char>)
    ensures
        forall|i: int|
            0 <= i < split_semis(s).len() ==> !(#[trigger] split_semis(s)[i]).contains(';'),
    decreases s.len(),
{
    lemma_first_semi(s);
    if s.len() == 0 {
    } else {
        let k = first_semi(s);
        if k >= s.len() {
            assert forall|j: int| 0 <= j < s.len() implies s[j] != ';' by {}
            assert(!s.contains(';'));
        } else {
            let head = s.subrange(0, k);
            assert forall|j: int| 0 <= j < head.len() implies head[j] != ';' by {
                assert(head[j] == s[j]);
            }
            assert(!head.contains(';'));
            let rest = s.subrange(k + 1, s.len() as int);
            lemma_split_tokens_no_semi(rest);
            assert forall|i: int|
                0 <= i < split_semis(s).len() implies !(#[trigger] split_semis(s)[i]).contains(
                ';',
            ) by {
                if i > 0 {
                    assert(split_semis(s)[i] == split_semis(rest)[i - 1]);
                }
            }
        }
    }
}

/// Joining with `;` as a separator: no trailing terminator is produced.
pub open spec fn join_semis(ts: Seq<Seq<char>>) -> Seq<char>
    decreases ts.len(),
{
    if ts.len() == 0 {
        Seq::empty()
    } else if ts.len() == 1 {
        ts[0]
    } else {
        ts[0] + seq![';'] + join_semis(ts.subrange(1, ts.len() as int))
    }
}

pub proof fn lemma_join_snoc(ts: Seq<Seq<char>>, t: Seq<char>)
    requires
        ts.len() >= 1,
    ensures
        join_semis(ts.push(t)) == join_semis(ts) + seq![';'] + t,
    decreases ts.len(),
{
    let p = ts.push(t);
    if ts.len() == 1 {
        assert(p.subrange(1, p.len() as int) =~= seq![t]);
        assert(join_semis(p) == ts[0] + seq![';'] + t);
    } else {
        assert(p.subrange(1, p.len() as int) =~= ts.subrange(1, ts.len() as int).push(t));
        lemma_join_snoc(ts.subrange(1, ts.len() as int), t);
        assert(join_semis(p) == join_semis(ts) + seq![';'] + t) by {
            assert(join_semis(p) == p[0] + seq![';'] + join_semis(p.subrange(1, p.len() as int)));
            assert(join_semis(ts) == ts[0] + seq![';'] + join_semis(
                ts.subrange(1, ts.len() as int),
            ));
            assert(join_semis(p) =~= join_semis(ts) + seq![';'] + t);
        }
    }
}

/// Splitting undoes joining, as long as every token is non-empty and free
/// of `;`.
pub proof fn lemma_split_join(ts: Seq<Seq<char>>)
    requires
        forall|i: int| 0 <= i < ts.len() ==> (#[trigger] ts[i]).len() > 0,
        forall|i: int| 0 <= i < ts.len() ==> !(#[trigger] ts[i]).contains(';'),
    ensures
        split_semis(join_semis(ts)) == ts,
    decreases ts.len(),
{
    let s = join_semis(ts);
    if ts.len() == 0 {
        assert(split_semis(s) =~= ts);
    } else if ts.len() == 1 {
        assert(s == ts[0]);
        assert forall|j: int| 0 <= j < s.len() implies s[j] != ';' by {
            if s[j] == ';' {
                assert(ts[0].contains(';'));
            }
        }
        lemma_first_semi_none(s);
        assert(split_semis(s) =~= ts);
    } else {
        let rest = ts.subrange(1, ts.len() as int);
        let tail = join_semis(rest);
        assert(s == ts[0] + seq![';'] + tail);
        let k = ts[0].len() as int;
        assert forall|j: int| 0 <= j < k implies s[j] != ';' by {
            assert(s[j] == ts[0][j]);
            if s[j] == ';' {
                assert(ts[0].contains(';'));
            }
        }
        assert(s[k] == ';');
        lemma_first_semi_is(s, k);
        assert(s.subrange(0, k) =~= ts[0]);
        assert(s.subrange(k + 1, s.len() as int) =~= tail);
        assert forall|i: int| 0 <= i < rest.len() implies (#[trigger] rest[i]).len() > 0 by {
            assert(rest[i] == ts[i + 1]);
        }
        assert forall|i: int| 0 <= i < rest.len() implies !(#[trigger] rest[i]).contains(';') by {
            assert(rest[i] == ts[i + 1]);
        }
        lemma_split_join(rest);
        assert(split_semis(s) =~= ts);
    }
}

/// The views of a vector of strings.
pub open spec fn str_views(v: Seq<String>) -> Seq<Seq<char>> {
    v.map_values(|t: String| t@)
}

/// Splits a raw `MimeType` value into its tokens, with terminator
/// semantics for the final `;`.
pub fn split_mime_list(s: &str) -> (r: Vec<String>)
    ensures
        str_views(r@) == split_semis(s@),
{
    let len = s.unicode_len();
    let mut out: Vec<String> = Vec::new();
    let mut start: usize = 0;
    let mut i: usize = 0;
    proof {
        assert(s@.subrange(0, len as int) =~= s@);
        assert(str_views(out@) =~= Seq::<Seq<char>>::empty());
        assert(str_views(out@) + split_semis(s@) =~= split_semis(s@));
    }
    while i < len
        invariant
            start <= i <= len,
            len == s@.len(),
            forall|j: int| start <= j < i ==> s@[j] != ';',
            split_semis(s@) == str_views(out@) + split_semis(
                s@.subrange(start as int, len as int),
            ),
        decreases len - i,
    {
        if s.get_char(i) == ';' {
            let tok = String::from_str(s.substring_char(start, i));
            proof {
                let t = s@.subrange(start as int, len as int);
                let k = i - start;
                assert forall|j: int| 0 <= j < k implies t[j] != ';' by {
                    assert(t[j] == s@[start + j]);
                }
                assert(t[k as int] == s@[i as int]);
                lemma_first_semi_is(t, k as int);
                assert(t.subrange(0, k as int) =~= s@.subrange(start as int, i as int));
                assert(t.subrange(k + 1, t.len() as int) =~= s@.subrange(
                    i + 1,
                    len as int,
                ));
                assert(split_semis(t) == seq![s@.subrange(start as int, i as int)] + split_semis(
                    s@.subrange(i + 1, len as int),
                ));
                assert(str_views(out@.push(tok)) =~= str_views(out@) + seq![tok@]);
                assert(str_views(out@) + split_semis(t) =~= str_views(out@.push(tok))
                    + split_semis(s@.subrange(i + 1, len as int)));
            }
            out.push(tok);
            start = i + 1;
        }
        i += 1;
    }
    let ghost t = s@.subrange(start as int, len as int);
    proof {
        assert forall|j: int| 0 <= j < t.len() implies t[j] != ';' by {
            assert(t[j] == s@[start + j]);
        }
        lemma_first_semi_none(t);
    }
    if start < len {
        let tok = String::from_str(s.substring_char(start, len));
        proof {
            assert(split_semis(t) =~= seq![t]);
            assert(str_views(out@.push(tok)) =~= str_views(out@) + seq![tok@]);
            assert(str_views(out@) + split_semis(t) =~= str_views(out@.push(tok)));
        }
        out.push(tok);
    } else {
        proof {
            assert(t.len() == 0);
            assert(split_semis(t) =~= Seq::<Seq<char>>::empty());
            assert(str_views(out@) + split_semis(t) =~= str_views(out@));
        }
    }
    out
}

/// Joins tokens back into a `;`-separated list with no trailing `;`.
pub fn join_mime_list(v: &Vec<String>) -> (r: String)
    ensures
        r@ == join_semis(str_views(v@)),
{
    let mut out = String::new();
    let mut i: usize = 0;
    proof {
        reveal_strlit(";");
        assert(";"@ =~= seq![';']);
    }
    while i < v.len()
        invariant
            i <= v@.len(),
            ";"@ == seq![';'],
            out@ == join_semis(str_views(v@).subrange(0, i as int)),
        decreases v@.len() - i,
    {
        if i > 0 {
            out.append(";");
        }
        out.append(v[i].as_str());
        proof {
            let ts = str_views(v@);
            assert(ts.subrange(0, i + 1) =~= ts.subrange(0, i as int).push(ts[i as int]));
            if i == 0 {
                assert(join_semis(ts.subrange(0, 1)) == ts[0]);
                assert(out@ =~= ts[0]);
            } else {
                lemma_join_snoc(ts.subrange(0, i as int), ts[i as int]);
                assert(out@ =~= join_semis(ts.subrange(0, i as int)) + seq![';'] + ts[i as int]);
            }
        }
        i += 1;
    }
    proof {
        assert(str_views(v@).subrange(0, v@.len() as int) =~= str_views(v@));
    }
    out
}

} // verus!
