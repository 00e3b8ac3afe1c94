//! The bundle codec: decoding the two flattened wire protocols into resource
//! bundles, and encoding bundles back onto the wire.
//!
//! Image protocol: entries separated by ASCII whitespace; within an entry the
//! first `-` separates the name from a padded-base64 payload. Template
//! protocol: entries separated by the literal token `|||`; within an entry the
//! first `@@@` separates the name from the template text. Neither protocol
//! escapes its delimiters, so names and texts must not contain them. The
//! sentinel string `empty`, like the empty string, means "no resources".

use vstd::prelude::*;
use vstd::string::StrSliceExecFns;
use vstd::string::StringExecFns;

use crate::b64::{b64_decode, b64_decode_of, b64_encode, b64_of, is_b64_char};
use crate::bundle::ResourceBundle;
use crate::strutil::{
    find_first, find_tok, is_ws, join_tok, lemma_char_free_tok_safe, lemma_find_tok_is,
    lemma_join_push, lemma_split_join, lemma_split_ws_single, push_char, split_tok, split_tok_exec,
    split_ws, split_ws_exec, tok_safe,
};

verus! {

/// Which wire bundle a decode error refers to.
#[derive(Debug, Copy, Clone, PartialEq, Eq, Structural)]
pub enum BundleKind {
    Image,
    Template,
}

/// Why an entry could not be decoded.
#[derive(Debug, Copy, Clone, PartialEq, Eq, Structural)]
pub enum BundleErrorReason {
    MissingSeparator,
    MalformedBase64,
}

/// A fatal bundle decode failure, naming the first offending entry.
#[derive(Debug)]
pub struct BundleError {
    pub kind: BundleKind,
    pub index: usize,
    pub reason: BundleErrorReason,
}

/// The name/text separator inside a template entry.
pub open spec fn name_tok() -> Seq<char> {
    seq!['@', '@', '@']
}

/// The separator between template entries.
pub open spec fn entry_tok() -> Seq<char> {
    seq!['|', '|', '|']
}

/// The name/payload separator inside an image entry.
pub open spec fn image_sep() -> Seq<char> {
    seq!['-']
}

/// The entries an image wire string carries: none for the sentinel or the
/// empty string, else the whitespace-separated pieces.
pub open spec fn image_entries_of(raw: Seq<char>) -> Seq<Seq<char>> {
    if raw == "empty"@ || raw.len() == 0 {
        Seq::empty()
    } else {
        split_ws(raw)
    }
}

/// The entries a template wire string carries.
pub open spec fn template_entries_of(raw: Seq<char>) -> Seq<Seq<char>> {
    if raw == "empty"@ || raw.len() == 0 {
        Seq::empty()
    } else {
        split_tok(raw, entry_tok())
    }
}

/// Name and encoded payload of one image entry: split at the first `-`.
pub open spec fn image_entry_parts(e: Seq<char>) -> Option<(Seq<char>, Seq<char>)> {
    let i = find_tok(e, image_sep());
    if i < e.len() {
        Some((e.take(i), e.skip(i + 1)))
    } else {
        None
    }
}

/// Fully decoded image entry: name and payload bytes.
pub open spec fn image_entry_model(e: Seq<char>) -> Option<(Seq<char>, Seq<u8>)> {
    match image_entry_parts(e) {
        None => None,
        Some(p) => match b64_decode_of(p.1) {
            None => None,
            Some(bytes) => Some((p.0, bytes)),
        },
    }
}

/// Decoded template entry: name and text, split at the first `@@@`.
pub open spec fn template_entry_model(e: Seq<char>) -> Option<(Seq<char>, Seq<char>)> {
    let i = find_tok(e, name_tok());
    if i < e.len() {
        Some((e.take(i), e.skip(i + name_tok().len())))
    } else {
        None
    }
}

/// Decodes the image wire string into a bundle of byte payloads. Fails on the
/// first entry without a `-` separator or with a malformed base64 payload.
pub fn decode_images(raw: &str) -> (r: Result<ResourceBundle<Vec<u8>>, BundleError>)
    ensures
        ({
            let entries = image_entries_of(raw@);
            match r {
                Ok(b) => {
                    &&& b.wf()
                    &&& b.names_v().len() == entries.len()
                    &&& b.items@.len() == entries.len()
                    &&& forall|i: int|
                        0 <= i < entries.len() ==> #[trigger] image_entry_model(entries[i]) is Some
                    &&& forall|i: int|
                        0 <= i < entries.len() ==> b.names_v()[i] == ((#[trigger] image_entry_model(
                            entries[i],
                        ))->0).0
                    &&& forall|i: int|
                        0 <= i < entries.len() ==> b.items@[i]@ == ((#[trigger] image_entry_model(
                            entries[i],
                        ))->0).1
                },
                Err(e) => {
                    &&& e.kind == BundleKind::Image
                    &&& 0 <= e.index < entries.len()
                    &&& image_entry_model(entries[e.index as int]) is None
                    &&& forall|j: int|
                        0 <= j < e.index ==> #[trigger] image_entry_model(entries[j]) is Some
                    &&& e.reason == (if image_entry_parts(entries[e.index as int]) is None {
                        BundleErrorReason::MissingSeparator
                    } else {
                        BundleErrorReason::MalformedBase64
                    })
                },
            }
        }),
{
    let rs = raw.to_owned();
    let sentinel = "empty".to_owned();
    let mut bundle = ResourceBundle::<Vec<u8>>::new();
    if rs.eq(&sentinel) || raw.unicode_len() == 0 {
        return Ok(bundle);
    }
    let entries = split_ws_exec(raw);
    let ghost es = image_entries_of(raw@);
    proof {
        assert(es == entries.deep_view());
    }
    let n = entries.len();
    let mut idx: usize = 0;
    while idx < n
        invariant
            0 <= idx <= n,
            n == entries@.len(),
            es == entries.deep_view(),
            es == image_entries_of(raw@),
            es.len() == n,
            bundle.wf(),
            bundle.names_v().len() == idx,
            bundle.items@.len() == idx,
            forall|i: int| 0 <= i < idx ==> #[trigger] image_entry_model(es[i]) is Some,
            forall|i: int|
                0 <= i < idx ==> bundle.names_v()[i] == ((#[trigger] image_entry_model(es[i]))->0).0,
            forall|i: int|
                0 <= i < idx ==> bundle.items@[i]@ == ((#[trigger] image_entry_model(es[i]))->0).1,
        decreases n - idx,
    {
        let e = &entries[idx];
        let ghost ev = es[idx as int];
        proof {
            assert(ev == e@);
            reveal_strlit("-");
            assert("-"@ =~= image_sep());
        }
        let e_len = e.as_str().unicode_len();
        let sep = find_first(e.as_str(), "-");
        proof {
            crate::strutil::lemma_find_tok(ev, image_sep());
        }
        if sep == e_len {
            proof {
                assert(image_entry_parts(ev) is None);
            }
            return Err(
                BundleError {
                    kind: BundleKind::Image,
                    index: idx,
                    reason: BundleErrorReason::MissingSeparator,
                },
            );
        }
        let name = e.as_str().substring_char(0, sep).to_owned();
        let payload_b64 = e.as_str().substring_char(sep + 1, e_len);
        proof {
            assert(name@ =~= ev.take(sep as int));
            assert(payload_b64@ =~= ev.skip(sep + 1));
        }
        match b64_decode(payload_b64) {
            Some(bytes) => {
                proof {
                    assert(image_entry_model(ev) == Some((name@, bytes@)));
                }
                bundle.push(name, bytes);
            },
            None => {
                proof {
                    assert(image_entry_model(ev) is None);
                }
                return Err(
                    BundleError {
                        kind: BundleKind::Image,
                        index: idx,
                        reason: BundleErrorReason::MalformedBase64,
                    },
                );
            },
        }
        idx += 1;
    }
    Ok(bundle)
}

/// Decodes the template wire string into a bundle of template texts. Fails on
/// the first entry without an `@@@` separator.
pub fn decode_templates(raw: &str) -> (r: Result<ResourceBundle<String>, BundleError>)
    ensures
        ({
            let entries = template_entries_of(raw@);
            match r {
                Ok(b) => {
                    &&& b.wf()
                    &&& b.names_v().len() == entries.len()
                    &&& b.items@.len() == entries.len()
                    &&& forall|i: int|
                        0 <= i < entries.len() ==> #[trigger] template_entry_model(
                            entries[i],
                        ) is Some
                    &&& forall|i: int|
                        0 <= i < entries.len() ==> b.names_v()[i] == ((#[trigger] template_entry_model(
                            entries[i],
                        ))->0).0
                    &&& forall|i: int|
                        0 <= i < entries.len() ==> b.items@[i]@ == ((#[trigger] template_entry_model(
                            entries[i],
                        ))->0).1
                },
                Err(e) => {
                    &&& e.kind == BundleKind::Template
                    &&& e.reason == BundleErrorReason::MissingSeparator
                    &&& 0 <= e.index < entries.len()
                    &&& template_entry_model(entries[e.index as int]) is None
                    &&& forall|j: int|
                        0 <= j < e.index ==> #[trigger] template_entry_model(entries[j]) is Some
                },
            }
        }),
{
    let rs = raw.to_owned();
    let sentinel = "empty".to_owned();
    let mut bundle = ResourceBundle::<String>::new();
    if rs.eq(&sentinel) || raw.unicode_len() == 0 {
        return Ok(bundle);
    }
    proof {
        reveal_strlit("|||");
        assert("|||"@ =~= entry_tok());
    }
    let entries = split_tok_exec(raw, "|||");
    let ghost es = template_entries_of(raw@);
    proof {
        assert(es == entries.deep_view());
    }
    let n = entries.len();
    let mut idx: usize = 0;
    while idx < n
        invariant
            0 <= idx <= n,
            n == entries@.len(),
            es == entries.deep_view(),
            es == template_entries_of(raw@),
            es.len() == n,
            bundle.wf(),
            bundle.names_v().len() == idx,
            bundle.items@.len() == idx,
            forall|i: int| 0 <= i < idx ==> #[trigger] template_entry_model(es[i]) is Some,
            forall|i: int|
                0 <= i < idx ==> bundle.names_v()[i] == ((#[trigger] template_entry_model(
                    es[i],
                ))->0).0,
            forall|i: int|
                0 <= i < idx ==> bundle.items@[i]@ == ((#[trigger] template_entry_model(es[i]))->0).1,
        decreases n - idx,
    {
        let e = &entries[idx];
        let ghost ev = es[idx as int];
        proof {
            assert(ev == e@);
            reveal_strlit("@@@");
            assert("@@@"@ =~= name_tok());
        }
        let e_len = e.as_str().unicode_len();
        let sep = find_first(e.as_str(), "@@@");
        proof {
            crate::strutil::lemma_find_tok(ev, name_tok());
        }
        if sep == e_len {
            proof {
                assert(template_entry_model(ev) is None);
            }
            return Err(
                BundleError {
                    kind: BundleKind::Template,
                    index: idx,
                    reason: BundleErrorReason::MissingSeparator,
                },
            );
        }
        let name = e.as_str().substring_char(0, sep).to_owned();
        let text = e.as_str().substring_char(sep + 3, e_len).to_owned();
        proof {
            assert(name@ =~= ev.take(sep as int));
            assert(text@ =~= ev.skip(sep + 3));
            assert(template_entry_model(ev) == Some((name@, text@)));
        }
        bundle.push(name, text);
        idx += 1;
    }
    Ok(bundle)
}

/// Wire form of one image entry: the name, a `-`, and the padded base64 of the
/// payload.
pub fn encode_image_entry(name: &str, payload: &Vec<u8>) -> (r: String)
    ensures
        r@ == name@ + image_sep() + b64_of(payload@),
        b64_decode_of(b64_of(payload@)) == Some(payload@),
        forall|i: int| 0 <= i < b64_of(payload@).len() ==> is_b64_char(#[trigger] b64_of(payload@)[i]),
{
    let mut s = name.to_owned();
    push_char(&mut s, '-');
    let enc = b64_encode(payload);
    s.append(enc.as_str());
    proof {
        assert(s@ =~= name@ + image_sep() + b64_of(payload@));
    }
    s
}

/// The wire form of one template entry.
pub open spec fn template_entry_chars(name: Seq<char>, text: Seq<char>) -> Seq<char> {
    name + name_tok() + text
}

/// The wire forms of a sequence of template pairs.
pub open spec fn template_entries_chars(pairs: Seq<(Seq<char>, Seq<char>)>) -> Seq<Seq<char>> {
    pairs.map(|i: int, p: (Seq<char>, Seq<char>)| template_entry_chars(p.0, p.1))
}

/// The character-level view of owned template pairs.
pub open spec fn pairs_view(pairs: Seq<(String, String)>) -> Seq<(Seq<char>, Seq<char>)> {
    pairs.map(|i: int, p: (String, String)| (p.0@, p.1@))
}

/// Wire form of a whole template bundle: entries `name@@@text` joined with
/// `|||`.
pub fn encode_template_bundle(pairs: &Vec<(String, String)>) -> (r: String)
    ensures
        r@ == join_tok(template_entries_chars(pairs_view(pairs@)), entry_tok()),
{
    let ghost entries = template_entries_chars(pairs_view(pairs@));
    let mut s = String::new();
    let n = pairs.len();
    let mut i: usize = 0;
    proof {
        assert(entries.take(0) =~= Seq::<Seq<char>>::empty());
    }
    while i < n
        invariant
            0 <= i <= n,
            n == pairs@.len(),
            entries == template_entries_chars(pairs_view(pairs@)),
            entries.len() == n,
            s@ == join_tok(entries.take(i as int), entry_tok()),
        decreases n - i,
    {
        proof {
            reveal_strlit("|||");
            assert("|||"@ =~= entry_tok());
            reveal_strlit("@@@");
            assert("@@@"@ =~= name_tok());
        }
        if i > 0 {
            s.append("|||");
        }
        let p = &pairs[i];
        s.append(p.0.as_str());
        s.append("@@@");
        s.append(p.1.as_str());
        proof {
            let prev = entries.take(i as int);
            let cur = entries[i as int];
            assert(cur == p.0@ + name_tok() + p.1@);
            assert(entries.take(i + 1) =~= prev.push(cur));
            if i > 0 {
                lemma_join_push(prev, cur, entry_tok());
                assert(s@ =~= join_tok(prev, entry_tok()) + entry_tok() + cur);
            } else {
                assert(s@ =~= cur);
                assert(join_tok(seq![cur], entry_tok()) == cur);
                assert(prev.push(cur) =~= seq![cur]);
            }
        }
        i += 1;
    }
    proof {
        assert(entries.take(n as int) =~= entries);
    }
    s
}

/// No character of `s` is a bundle delimiter character.
pub open spec fn delimiter_free(s: Seq<char>) -> bool {
    forall|i: int| 0 <= i < s.len() ==> s[i] != '@' && s[i] != '|'
}

/// A delimiter-character-free pair is token-safe on the wire: its entry can
/// fabricate no `|||`, and its name no `@@@` — the simple sufficient condition
/// for the round-trip law.
pub proof fn lemma_delimiter_free_safe(name: Seq<char>, text: Seq<char>)
    requires
        delimiter_free(name),
        delimiter_free(text),
    ensures
        tok_safe(name + name_tok() + text, entry_tok()),
        tok_safe(name, name_tok()),
{
    let e = name + name_tok() + text;
    assert forall|i: int| 0 <= i < e.len() implies e[i] != '|' by {
        if i < name.len() {
            assert(e[i] == name[i]);
        } else if i < name.len() + 3 {
            assert(e[i] == name_tok()[i - name.len()]);
        } else {
            assert(e[i] == text[i - name.len() - 3]);
        }
    }
    lemma_char_free_tok_safe(e, entry_tok());
    lemma_char_free_tok_safe(name, name_tok());
}

/// Law: a single well-formed image entry decodes to exactly its name and
/// payload — the wire round trip loses nothing.
pub proof fn lemma_image_entry_round_trip(name: Seq<char>, enc: Seq<char>, payload: Seq<u8>)
    requires
        forall|i: int| 0 <= i < name.len() ==> name[i] != '-' && !is_ws(#[trigger] name[i]),
        forall|i: int| 0 <= i < enc.len() ==> is_b64_char(#[trigger] enc[i]),
        b64_decode_of(enc) == Some(payload),
    ensures
        image_entries_of(name + image_sep() + enc) == seq![name + image_sep() + enc],
        image_entry_model(name + image_sep() + enc) == Some((name, payload)),
{
    let raw = name + image_sep() + enc;
    let n0 = name.len() as int;
    assert(raw[n0] == '-');
    assert(raw.len() > 0);
    if raw == "empty"@ {
        reveal_strlit("empty");
        assert("empty"@.len() == 5);
        assert(0 <= n0 < 5);
        if n0 == 0 {
            assert(raw[0] == 'e');
        } else if n0 == 1 {
            assert(raw[1] == 'm');
        } else if n0 == 2 {
            assert(raw[2] == 'p');
        } else if n0 == 3 {
            assert(raw[3] == 't');
        } else {
            assert(raw[4] == 'y');
        }
        assert(false);
    }
    assert forall|i: int| 0 <= i < raw.len() implies !is_ws(raw[i]) by {
        if i < n0 {
            assert(raw[i] == name[i]);
        } else if i > n0 {
            assert(raw[i] == enc[i - n0 - 1]);
        }
    }
    lemma_split_ws_single(raw);
    assert forall|i: int| 0 <= i < n0 implies !crate::strutil::occurs_at(raw, image_sep(), i) by {
        if crate::strutil::occurs_at(raw, image_sep(), i) {
            assert(raw.subrange(i, i + 1)[0] == raw[i]);
            assert(raw[i] == name[i]);
        }
    }
    assert(crate::strutil::occurs_at(raw, image_sep(), n0)) by {
        assert(raw.subrange(n0, n0 + 1) =~= image_sep());
    }
    lemma_find_tok_is(raw, image_sep(), n0);
    assert(raw.take(n0) =~= name);
    assert(raw.skip(n0 + 1) =~= enc);
}

/// Law: bundling template pairs and decoding them back preserves every entry,
/// provided no pair can fabricate a delimiter token on the wire: no `|||` may
/// begin inside an entry (nor be completed by the separator after it), and no
/// `@@@` inside a name.
pub proof fn lemma_template_bundle_round_trip(pairs: Seq<(Seq<char>, Seq<char>)>)
    requires
        pairs.len() >= 1,
        forall|k: int|
            0 <= k < pairs.len() ==> tok_safe(
                (#[trigger] pairs[k]).0 + name_tok() + pairs[k].1,
                entry_tok(),
            ),
        forall|k: int| 0 <= k < pairs.len() ==> tok_safe((#[trigger] pairs[k]).0, name_tok()),
    ensures
        template_entries_of(join_tok(template_entries_chars(pairs), entry_tok()))
            == template_entries_chars(pairs),
        forall|k: int|
            0 <= k < pairs.len() ==> template_entry_model(
                #[trigger] template_entries_chars(pairs)[k],
            ) == Some(pairs[k]),
{
    let entries = template_entries_chars(pairs);
    let raw = join_tok(entries, entry_tok());

    assert forall|k: int| 0 <= k < entries.len() implies tok_safe(
        #[trigger] entries[k],
        entry_tok(),
    ) by {
        assert(entries[k] == pairs[k].0 + name_tok() + pairs[k].1);
    }
    lemma_split_join(entries, entry_tok());

    let e0 = entries[0];
    let n00 = pairs[0].0.len() as int;
    assert(e0 == pairs[0].0 + name_tok() + pairs[0].1);
    assert(e0[n00] == '@');
    assert(raw.len() >= e0.len()) by {
        if entries.len() >= 2 {
            assert(raw == e0 + entry_tok() + join_tok(entries.skip(1), entry_tok()));
        }
    }
    assert(raw[n00] == '@') by {
        if entries.len() >= 2 {
            assert(raw == e0 + entry_tok() + join_tok(entries.skip(1), entry_tok()));
            assert(raw[n00] == e0[n00]);
        }
    }
    assert(raw.len() > 0);
    if raw == "empty"@ {
        reveal_strlit("empty");
        assert("empty"@.len() == 5);
        assert(0 <= n00 < 5);
        if n00 == 0 {
            assert(raw[0] == 'e');
        } else if n00 == 1 {
            assert(raw[1] == 'm');
        } else if n00 == 2 {
            assert(raw[2] == 'p');
        } else if n00 == 3 {
            assert(raw[3] == 't');
        } else {
            assert(raw[4] == 'y');
        }
        assert(false);
    }
    assert(template_entries_of(raw) == entries);

    assert forall|k: int| 0 <= k < pairs.len() implies template_entry_model(
        #[trigger] template_entries_chars(pairs)[k],
    ) == Some(pairs[k]) by {
        let e = entries[k];
        let nm = pairs[k].0;
        let tx = pairs[k].1;
        assert(e == nm + name_tok() + tx);
        let n0 = nm.len() as int;
        assert forall|i: int| 0 <= i < n0 implies !crate::strutil::occurs_at(e, name_tok(), i) by {
            if crate::strutil::occurs_at(e, name_tok(), i) {
                assert((nm + name_tok()).subrange(i, i + 3) =~= e.subrange(i, i + 3));
                assert(crate::strutil::occurs_at(nm + name_tok(), name_tok(), i));
            }
        }
        assert(crate::strutil::occurs_at(e, name_tok(), n0)) by {
            assert(e.subrange(n0, n0 + 3) =~= name_tok());
        }
        lemma_find_tok_is(e, name_tok(), n0);
        assert(e.take(n0) =~= nm);
        assert(e.skip(n0 + 3) =~= tx);
    }
}

/// Law: the sentinel and the empty wire string carry no entries at all.
pub proof fn lemma_sentinel_is_empty(raw: Seq<char>)
    requires
        raw == "empty"@ || raw.len() == 0,
    ensures
        image_entries_of(raw).len() == 0,
        template_entries_of(raw).len() == 0,
{
}

/// Law, run end to end: decoding an encoded single-image bundle resolves the
/// name back to exactly the payload bytes.
pub fn image_round_trip(name: &str, payload: &Vec<u8>) -> (r: Vec<u8>)
    requires
        forall|i: int| 0 <= i < name@.len() ==> name@[i] != '-' && !is_ws(#[trigger] name@[i]),
    ensures
        r@ == payload@,
{
    let entry = encode_image_entry(name, payload);
    let ghost entries = image_entries_of(entry@);
    proof {
        lemma_image_entry_round_trip(name@, b64_of(payload@), payload@);
        assert(entries =~= seq![entry@]);
        assert(entries[0] == entry@);
        assert(image_entry_model(entries[0]) == Some((name@, payload@)));
    }
    let bundle = match decode_images(entry.as_str()) {
        Ok(b) => b,
        Err(_) => {
            proof {
                assert(false);
            }
            return Vec::new();
        },
    };
    proof {
        assert(bundle.names_v()[0] == name@);
        bundle.lemma_lookup_at(0);
    }
    match bundle.resolve(name) {
        Ok(item) => vstd::slice::slice_to_vec(item.as_slice()),
        Err(_) => {
            proof {
                assert(bundle.contains_name(name@));
                assert(false);
            }
            Vec::new()
        },
    }
}

/// Law, run end to end: bundling token-safe template pairs with
/// pairwise-distinct names, then decoding, maps each name back to exactly its
/// text. Any pair without `@` and `|` characters is token-safe
/// (`lemma_delimiter_free_safe`).
pub fn template_round_trip(pairs: &Vec<(String, String)>, k: usize) -> (r: String)
    requires
        k < pairs@.len(),
        forall|i: int|
            0 <= i < pairs@.len() ==> tok_safe(
                (#[trigger] pairs@[i]).0@ + name_tok() + pairs@[i].1@,
                entry_tok(),
            ),
        forall|i: int| 0 <= i < pairs@.len() ==> tok_safe((#[trigger] pairs@[i]).0@, name_tok()),
        forall|i: int, j: int| 0 <= i < j < pairs@.len() ==> pairs@[i].0@ != pairs@[j].0@,
    ensures
        r@ == pairs@[k as int].1@,
{
    let raw = encode_template_bundle(pairs);
    let ghost pv = pairs_view(pairs@);
    let ghost entries = template_entries_of(raw@);
    proof {
        lemma_template_bundle_round_trip(pv);
        assert(entries == template_entries_chars(pv));
        assert(entries.len() == pv.len());
        assert(forall|i: int|
            0 <= i < pv.len() ==> template_entry_model(#[trigger] entries[i]) == Some(pv[i]));
        assert(pv[k as int] == (pairs@[k as int].0@, pairs@[k as int].1@));
    }
    let bundle = match decode_templates(raw.as_str()) {
        Ok(b) => b,
        Err(_) => {
            proof {
                assert(false);
            }
            return String::new();
        },
    };
    proof {
        assert forall|i: int| 0 <= i < pv.len() implies bundle.names_v()[i] == pv[i].0 by {
            assert(template_entry_model(template_entries_chars(pv)[i]) == Some(pv[i]));
        }
        assert forall|j: int| (k as int) < j < bundle.names_v().len() implies bundle.names_v()[j]
            != bundle.names_v()[k as int] by {
            assert(pairs@[k as int].0@ != pairs@[j].0@);
        }
        bundle.lemma_lookup_at(k as int);
        assert(bundle.names_v()[k as int] == pairs@[k as int].0@);
        assert(template_entry_model(entries[k as int]) == Some(pv[k as int]));
        assert(bundle.items@[k as int]@ == pv[k as int].1);
        assert(pv[k as int].1 == pairs@[k as int].1@);
    }
    match bundle.resolve(pairs[k].0.as_str()) {
        Ok(item) => item.clone(),
        Err(_) => {
            proof {
                assert(bundle.contains_name(pairs@[k as int].0@));
                assert(false);
            }
            String::new()
        },
    }
}

} // verus!
