//! The palette document codec: named colors rendered to and read from the
//! on-disk document text. The text form is pinned character by character by
//! spec functions, and the writer always forces the document's schema
//! reference to the fixed value, whatever was passed in.
//!
//! The format carries no escape sequences, so the writer refuses a document
//! whose strings carry a quote character rather than emit malformed text --
//! a deliberate policy, stated in [`encode_colors`]'s contract. The reader
//! accepts the format up to whitespace between tokens and an absent schema
//! field; field order is fixed.

use crate::ApiError;
use vstd::prelude::*;
use vstd::string::StrSliceExecFns;
use vstd::string::StringExecFns;

verus! {

/// A palette entry: a hex color string (expected form `#RRGGBB`, not
/// validated here) and an optional display name.
#[derive(Clone, Debug)]
pub struct Color {
    pub hex_color: String,
    pub name: Option<String>,
}

/// The palette document: entries in order, and a schema reference that every
/// write overwrites with the fixed value.
#[derive(Clone, Debug)]
pub struct ColorsJson {
    pub schema: Option<String>,
    pub colors: Vec<Color>,
}

/// The mathematical value of a palette entry.
pub ghost struct ColorV {
    pub hex_color: Seq<char>,
    pub name: Option<Seq<char>>,
}

/// The mathematical value of a palette document.
pub ghost struct ColorsJsonV {
    pub schema: Option<Seq<char>>,
    pub colors: Seq<ColorV>,
}

impl View for Color {
    type V = ColorV;

    open spec fn view(&self) -> ColorV {
        ColorV {
            hex_color: self.hex_color@,
            name: match self.name {
                Some(n) => Some(n@),
                None => None,
            },
        }
    }
}

impl View for ColorsJson {
    type V = ColorsJsonV;

    open spec fn view(&self) -> ColorsJsonV {
        ColorsJsonV {
            schema: match self.schema {
                Some(s) => Some(s@),
                None => None,
            },
            colors: Seq::new(self.colors@.len(), |i: int| self.colors@[i]@),
        }
    }
}

/// The fixed schema reference written into every rendered document.
pub open spec fn schema_ref() -> Seq<char> {
    "./colors.schema.json"@
}

/// The fixed schema reference, as text.
pub fn schema_ref_str() -> (s: &'static str)
    ensures
        s@ == schema_ref(),
{
    "./colors.schema.json"
}

/// The rendered text of one palette entry. An entry with no name carries no
/// name key at all, rather than a null one.
pub open spec fn entry_json(c: ColorV) -> Seq<char> {
    match c.name {
        None => "{\"hex_color\":\""@ + c.hex_color + "\"}"@,
        Some(n) => "{\"hex_color\":\""@ + c.hex_color + "\",\"name\":\""@ + n + "\"}"@,
    }
}

/// The rendered text of a sequence of palette entries, comma-separated.
pub open spec fn entries_json(cs: Seq<ColorV>) -> Seq<char>
    decreases cs.len(),
{
    if cs.len() <= 0 {
        Seq::empty()
    } else if cs.len() == 1 {
        entry_json(cs[0])
    } else {
        entries_json(cs.drop_last()) + ","@ + entry_json(cs.last())
    }
}

/// The rendered text of a whole palette document: the fixed schema reference
/// first, then the entries in order. The schema value a caller put in the
/// document does not appear anywhere in it.
pub open spec fn doc_json(cs: Seq<ColorV>) -> Seq<char> {
    "{\"$schema\":\""@ + schema_ref() + "\",\"colors\":["@ + entries_json(cs) + "]}"@
}

/// The text of a palette document whose optional schema field is absent.
pub open spec fn doc_json_noschema(cs: Seq<ColorV>) -> Seq<char> {
    "{\"colors\":["@ + entries_json(cs) + "]}"@
}

/// A whitespace character: the document grammar ignores these between
/// tokens, never inside quoted strings.
pub open spec fn is_ws(c: char) -> bool {
    c == ' ' || c == '\t' || c == '\n' || c == '\r'
}

/// The text with every whitespace character outside quoted strings removed;
/// `inq` says whether the text begins inside a quoted string.
pub open spec fn spec_strip(s: Seq<char>, inq: bool) -> Seq<char>
    decreases s.len(),
{
    if s.len() == 0 {
        Seq::empty()
    } else if s[0] == '"' {
        seq!['"'] + spec_strip(s.drop_first(), !inq)
    } else if !inq && is_ws(s[0]) {
        spec_strip(s.drop_first(), false)
    } else {
        seq![s[0]] + spec_strip(s.drop_first(), inq)
    }
}

/// Remove every whitespace character that stands outside quoted strings.
fn strip_ws(s: &str) -> (r: String)
    ensures
        r@ == spec_strip(s@, false),
{
    let n = s.unicode_len();
    let mut out = String::new();
    let mut inq = false;
    let mut rs: usize = 0;
    let mut i: usize = 0;
    proof {
        assert(s@.skip(0) =~= s@);
        assert(s@.subrange(0, 0) =~= Seq::<char>::empty());
        assert(out@ + s@.subrange(0, 0) =~= Seq::<char>::empty());
    }
    while i < n
        invariant
            n == s@.len(),
            rs <= i <= n,
            spec_strip(s@, false) == (out@ + s@.subrange(rs as int, i as int)) + spec_strip(
                s@.skip(i as int),
                inq,
            ),
        decreases n - i,
    {
        proof {
            assert(s@.skip(i as int)[0] == s@[i as int]);
            assert(s@.skip(i as int).drop_first() =~= s@.skip(i as int + 1));
        }
        let c = s.get_char(i);
        if c == '"' {
            inq = !inq;
            proof {
                assert((out@ + s@.subrange(rs as int, i as int + 1)) =~= (out@ + s@.subrange(
                    rs as int,
                    i as int,
                )) + seq![s@[i as int]]);
                assert(((out@ + s@.subrange(rs as int, i as int)) + seq![s@[i as int]])
                    + spec_strip(s@.skip(i as int + 1), inq) =~= (out@ + s@.subrange(
                    rs as int,
                    i as int,
                )) + (seq![s@[i as int]] + spec_strip(s@.skip(i as int + 1), inq)));
            }
            i = i + 1;
        } else if !inq && (c == ' ' || c == '\t' || c == '\n' || c == '\r') {
            let run = s.substring_char(rs, i);
            out.append(run);
            proof {
                assert(s@.subrange(i as int + 1, i as int + 1) =~= Seq::<char>::empty());
                assert((out@ + s@.subrange(i as int + 1, i as int + 1)) =~= out@);
            }
            rs = i + 1;
            i = i + 1;
        } else {
            proof {
                assert((out@ + s@.subrange(rs as int, i as int + 1)) =~= (out@ + s@.subrange(
                    rs as int,
                    i as int,
                )) + seq![s@[i as int]]);
                assert(((out@ + s@.subrange(rs as int, i as int)) + seq![s@[i as int]])
                    + spec_strip(s@.skip(i as int + 1), inq) =~= (out@ + s@.subrange(
                    rs as int,
                    i as int,
                )) + (seq![s@[i as int]] + spec_strip(s@.skip(i as int + 1), inq)));
            }
            i = i + 1;
        }
    }
    let tail = s.substring_char(rs, n);
    out.append(tail);
    proof {
        assert(s@.skip(n as int).len() == 0);
        assert((out@) + spec_strip(s@.skip(n as int), inq) =~= out@);
    }
    out
}

/// Append the rendered text of one entry.
fn append_entry(out: &mut String, c: &Color)
    ensures
        final(out)@ == old(out)@ + entry_json(c@),
{
    out.append("{\"hex_color\":\"");
    out.append(c.hex_color.as_str());
    match &c.name {
        None => {
            out.append("\"}");
        },
        Some(n) => {
            out.append("\",\"name\":\"");
            out.append(n.as_str());
            out.append("\"}");
        },
    }
    proof {
        assert(out@ =~= old(out)@ + entry_json(c@));
    }
}

/// The text holds no quote character.
fn str_quote_free(s: &str) -> (b: bool)
    ensures
        b == quote_free(s@),
{
    let n = s.unicode_len();
    let mut i: usize = 0;
    while i < n
        invariant
            n == s@.len(),
            i <= n,
            forall|m: int| 0 <= m < i ==> s@[m] != '"',
        decreases n - i,
    {
        if s.get_char(i) == '"' {
            return false;
        }
        i = i + 1;
    }
    true
}

/// Render a palette document to its on-disk text.
///
/// Succeeds exactly when every string of the document is quote-free: the
/// format carries no escape sequences, so a quote-carrying string is refused
/// with `ApiError::Document` rather than rendered into malformed text. On
/// success the output is exactly `doc_json(doc@.colors)`: the schema
/// reference in the text is always the fixed value, whatever `doc.schema`
/// holds, and an entry with no name is rendered without a name key.
pub fn encode_colors(doc: &ColorsJson) -> (r: Result<String, ApiError>)
    ensures
        r matches Ok(t) ==> t@ == doc_json(doc@.colors),
        (r is Ok) <==> wf_colors(doc@.colors),
        r matches Err(e) ==> e is Document,
{
    let ghost cs = doc@.colors;
    let mut v: usize = 0;
    while v < doc.colors.len()
        invariant
            v <= doc.colors.len(),
            cs == doc@.colors,
            cs.len() == doc.colors@.len(),
            forall|q: int| 0 <= q < v ==> wf_color(#[trigger] cs[q]),
        decreases doc.colors@.len() - v,
    {
        let c = &doc.colors[v];
        proof {
            assert(cs[v as int] == doc.colors@[v as int]@);
        }
        if !str_quote_free(c.hex_color.as_str()) {
            proof {
                assert(!wf_color(cs[v as int]));
            }
            return Err(ApiError::Document(String::from_str("a palette string contains a quote character")));
        }
        match &c.name {
            None => {},
            Some(nm) => {
                if !str_quote_free(nm.as_str()) {
                    proof {
                        assert(!wf_color(cs[v as int]));
                    }
                    return Err(ApiError::Document(String::from_str("a palette string contains a quote character")));
                }
            },
        }
        v = v + 1;
    }
    proof {
        assert(cs =~= color_views(doc.colors@));
    }
    let out = render_doc(true, &doc.colors);
    Ok(out)
}

/// Render the colors as a document text, with the fixed schema reference or
/// with the schema field absent.
fn render_doc(with_schema: bool, colors: &Vec<Color>) -> (r: String)
    requires
        wf_colors(color_views(colors@)),
    ensures
        r@ == (if with_schema {
            doc_json(color_views(colors@))
        } else {
            doc_json_noschema(color_views(colors@))
        }),
{
    let ghost cs = color_views(colors@);
    let ghost hdr: Seq<char> = if with_schema {
        "{\"$schema\":\""@ + schema_ref() + "\",\"colors\":["@
    } else {
        "{\"colors\":["@
    };
    let mut out = String::new();
    if with_schema {
        out.append("{\"$schema\":\"");
        out.append(schema_ref_str());
        out.append("\",\"colors\":[");
    } else {
        out.append("{\"colors\":[");
    }
    proof {
        assert(cs.take(0) =~= Seq::<ColorV>::empty());
        assert(out@ =~= hdr + entries_json(cs.take(0)));
    }
    let mut i: usize = 0;
    while i < colors.len()
        invariant
            i <= colors.len(),
            cs == color_views(colors@),
            cs.len() == colors@.len(),
            hdr == (if with_schema {
                "{\"$schema\":\""@ + schema_ref() + "\",\"colors\":["@
            } else {
                "{\"colors\":["@
            }),
            out@ == hdr + entries_json(cs.take(i as int)),
        decreases colors@.len() - i,
    {
        if i > 0 {
            out.append(",");
        }
        append_entry(&mut out, &colors[i]);
        proof {
            let k = i as int;
            assert(cs[k] == colors@[k]@);
            assert(cs.take(k + 1).drop_last() =~= cs.take(k));
            assert(cs.take(k + 1).last() == cs[k]);
            if k == 0 {
                assert(entries_json(cs.take(1)) == entry_json(cs[0]));
                assert(out@ =~= hdr + entries_json(cs.take(1)));
            } else {
                assert(entries_json(cs.take(k + 1)) == entries_json(cs.take(k)) + ","@
                    + entry_json(cs[k]));
                assert(out@ =~= hdr + entries_json(cs.take(k + 1)));
            }
        }
        i = i + 1;
    }
    out.append("]}");
    proof {
        assert(cs.take(cs.len() as int) =~= cs);
        if with_schema {
            assert(out@ =~= doc_json(cs));
        } else {
            assert(out@ =~= doc_json_noschema(cs));
        }
    }
    out
}

/// The strings a quote-driven scan of `s` collects, given the text collected
/// so far inside an open quote (`None`: outside any string). An unterminated
/// final string is dropped.
pub open spec fn spec_scan(s: Seq<char>, acc: Option<Seq<char>>) -> Seq<Seq<char>>
    decreases s.len(),
{
    if s.len() == 0 {
        Seq::empty()
    } else {
        match acc {
            None => if s[0] == '"' {
                spec_scan(s.drop_first(), Some(Seq::empty()))
            } else {
                spec_scan(s.drop_first(), None)
            },
            Some(t) => if s[0] == '"' {
                seq![t] + spec_scan(s.drop_first(), None)
            } else {
                spec_scan(s.drop_first(), Some(t.push(s[0])))
            },
        }
    }
}

/// The views of a sequence of strings.
pub open spec fn string_views(ts: Seq<String>) -> Seq<Seq<char>> {
    Seq::new(ts.len(), |i: int| ts[i]@)
}

/// Collect the quoted strings of a document text, in order, with no escape
/// processing; each collected string is quote-free. Scanning alone is
/// permissive; [`parse_colors`] accepts a text only after re-rendering what
/// was scanned and comparing it with the input.
fn scan_strings(s: &str) -> (ts: Vec<String>)
    ensures
        string_views(ts@) == spec_scan(s@, None),
        forall|k: int| 0 <= k < ts@.len() ==> quote_free(#[trigger] ts@[k]@),
{
    let n = s.unicode_len();
    let mut ts: Vec<String> = Vec::new();
    proof {
        assert(string_views(ts@) =~= Seq::<Seq<char>>::empty());
        assert(s@.skip(0) =~= s@);
    }
    let mut i: usize = 0;
    while i < n
        invariant
            n == s@.len(),
            i <= n,
            spec_scan(s@, None) == string_views(ts@) + spec_scan(s@.skip(i as int), None),
            forall|k: int| 0 <= k < ts@.len() ==> quote_free(#[trigger] ts@[k]@),
        decreases n - i,
    {
        proof {
            assert(s@.skip(i as int)[0] == s@[i as int]);
            assert(s@.skip(i as int).drop_first() =~= s@.skip(i as int + 1));
        }
        if s.get_char(i) == '"' {
            let mut j = i + 1;
            proof {
                assert(s@.subrange(i as int + 1, i as int + 1) =~= Seq::<char>::empty());
            }
            while j < n && s.get_char(j) != '"'
                invariant
                    n == s@.len(),
                    i + 1 <= j <= n,
                    i < n,
                    s@[i as int] == '"',
                    spec_scan(s@.skip(i as int), None) == spec_scan(
                        s@.skip(j as int),
                        Some(s@.subrange(i as int + 1, j as int)),
                    ),
                    forall|m: int| i + 1 <= m < j ==> s@[m] != '"',
                decreases n - j,
            {
                proof {
                    assert(s@.skip(j as int)[0] == s@[j as int]);
                    assert(s@.skip(j as int).drop_first() =~= s@.skip(j as int + 1));
                    assert(s@.subrange(i as int + 1, j as int).push(s@[j as int]) =~= s@.subrange(
                        i as int + 1,
                        j as int + 1,
                    ));
                }
                j = j + 1;
            }
            if j < n {
                let t = s.substring_char(i + 1, j);
                proof {
                    assert forall|m: int| 0 <= m < t@.len() implies t@[m] != '"' by {
                        assert(t@[m] == s@[i + 1 + m]);
                    }
                    assert(s@.skip(j as int)[0] == s@[j as int]);
                    assert(s@.skip(j as int).drop_first() =~= s@.skip(j as int + 1));
                }
                ts.push(t.to_owned());
                proof {
                    let tv = s@.subrange(i as int + 1, j as int);
                    assert(string_views(ts@) =~= string_views(ts@.drop_last()) + seq![tv]);
                    assert((string_views(ts@.drop_last()) + seq![tv]) + spec_scan(
                        s@.skip(j as int + 1),
                        None,
                    ) =~= string_views(ts@.drop_last()) + (seq![tv] + spec_scan(
                        s@.skip(j as int + 1),
                        None,
                    )));
                }
                i = j + 1;
            } else {
                proof {
                    assert(s@.skip(j as int).len() == 0);
                    assert(s@.skip(n as int).len() == 0);
                }
                i = n;
            }
        } else {
            i = i + 1;
        }
    }
    proof {
        assert(s@.skip(n as int).len() == 0);
        assert(string_views(ts@) + spec_scan(s@.skip(n as int), None) =~= string_views(ts@));
    }
    ts
}

/// The colors rebuilt from the scanned strings, starting at index `k`: a
/// `hex_color` key and its value, then an optional `name` key and its value,
/// entry after entry. `None` where the strings fit no rendered document.
pub open spec fn spec_rebuild(ts: Seq<Seq<char>>, k: int) -> Option<Seq<ColorV>>
    decreases ts.len() - k,
{
    if k >= ts.len() {
        Some(Seq::empty())
    } else if ts.len() - k < 2 {
        None
    } else if ts[k] != "hex_color"@ {
        None
    } else if ts.len() - k >= 4 && ts[k + 2] == "name"@ {
        match spec_rebuild(ts, k + 4) {
            Some(rest) => Some(
                seq![ColorV { hex_color: ts[k + 1], name: Some(ts[k + 3]) }] + rest,
            ),
            None => None,
        }
    } else if ts.len() - k == 3 && ts[k + 2] == "name"@ {
        None
    } else {
        match spec_rebuild(ts, k + 2) {
            Some(rest) => Some(seq![ColorV { hex_color: ts[k + 1], name: None }] + rest),
            None => None,
        }
    }
}

/// Rebuilding inverts rendering on the token side: from the strings of a
/// rendered entry list, the entries come back exactly.
proof fn lemma_rebuild_entries(ts: Seq<Seq<char>>, k: int, cs: Seq<ColorV>)
    requires
        0 <= k <= ts.len(),
        ts.subrange(k, ts.len() as int) == entries_tokens(cs),
    ensures
        spec_rebuild(ts, k) == Some(cs),
    decreases cs.len(),
{
    reveal_strlit("hex_color");
    reveal_strlit("name");
    let suffix = ts.subrange(k, ts.len() as int);
    if cs.len() == 0 {
        assert(suffix.len() == 0);
        assert(k >= ts.len());
        assert(cs =~= Seq::<ColorV>::empty());
    } else {
        let c = cs[0];
        let df = cs.drop_first();
        assert(entries_tokens(cs) == entry_tokens(c) + entries_tokens(df));
        let step: int = match c.name {
            None => 2,
            Some(n) => 4,
        };
        assert(entry_tokens(c).len() == step);
        assert(suffix.len() == step + entries_tokens(df).len());
        assert(ts.len() - k >= 2);
        assert(ts[k] == suffix[0]);
        assert(ts[k] == "hex_color"@);
        assert(ts[k + 1] == suffix[1]);
        assert(ts[k + 1] == c.hex_color);
        assert forall|m: int| 0 <= m < entries_tokens(df).len() implies ts.subrange(
            k + step,
            ts.len() as int,
        )[m] == entries_tokens(df)[m] by {
            assert(suffix[step + m] == ts[k + step + m]);
            assert(suffix[step + m] == entries_tokens(df)[m]);
        }
        assert(ts.subrange(k + step, ts.len() as int) =~= entries_tokens(df));
        lemma_rebuild_entries(ts, k + step, df);
        match c.name {
            None => {
                if ts.len() - k >= 3 {
                    assert(ts[k + 2] == suffix[2]);
                    assert(entries_tokens(df).len() >= 1);
                    assert(df.len() > 0);
                    assert(entries_tokens(df) == entry_tokens(df[0]) + entries_tokens(
                        df.drop_first(),
                    ));
                    assert(suffix[2] == entries_tokens(df)[0]);
                    assert(entries_tokens(df)[0] == "hex_color"@);
                    assert(ts[k + 2] != "name"@);
                }
                assert(c == (ColorV { hex_color: c.hex_color, name: None }));
                assert(seq![c] + df =~= cs);
            },
            Some(n) => {
                assert(ts[k + 2] == suffix[2]);
                assert(ts[k + 2] == "name"@);
                assert(ts[k + 3] == suffix[3]);
                assert(ts[k + 3] == n);
                assert(c == (ColorV { hex_color: c.hex_color, name: Some(n) }));
                assert(seq![c] + df =~= cs);
            },
        }
    }
}

/// From the strings of a whole rendered document, the colors come back
/// exactly.
proof fn lemma_rebuild_doc(cs: Seq<ColorV>)
    ensures
        spec_rebuild(doc_tokens(cs), 3) == Some(cs),
{
    let ts = doc_tokens(cs);
    assert(ts.subrange(3, ts.len() as int) =~= entries_tokens(cs));
    lemma_rebuild_entries(ts, 3, cs);
}

/// The views of a sequence of palette entries.
pub open spec fn color_views(cs: Seq<Color>) -> Seq<ColorV> {
    Seq::new(cs.len(), |i: int| cs[i]@)
}

/// Read a palette document from its text.
///
/// Accepts the document format up to whitespace between tokens and an absent
/// schema field, and owes success on every such text: after discarding
/// whitespace outside quoted strings, the text must be the rendering of its
/// colors, with the fixed schema reference or with no schema field at all.
/// A document is returned only if rendering it back yields that stripped
/// text unchanged, so every accepted text pins the returned colors exactly,
/// and the returned strings are quote-free. Any other text -- a reordered
/// document, a foreign schema reference, an escape sequence -- fails with
/// `ApiError::Document`.
pub fn parse_colors(s: &str) -> (r: Result<ColorsJson, ApiError>)
    ensures
        r matches Ok(d) ==> wf_colors(d@.colors) && ((spec_strip(s@, false) == doc_json(d@.colors)
            && d@.schema == Some(schema_ref())) || (spec_strip(s@, false) == doc_json_noschema(
            d@.colors,
        ) && d@.schema is None)),
        r matches Err(e) ==> e is Document,
        (exists|cs: Seq<ColorV>|
            wf_colors(cs) && (spec_strip(s@, false) == doc_json(cs) || spec_strip(s@, false)
                == doc_json_noschema(cs))) ==> r is Ok,
{
    let ghost canonical = exists|cs: Seq<ColorV>|
        wf_colors(cs) && (spec_strip(s@, false) == doc_json(cs) || spec_strip(s@, false)
            == doc_json_noschema(cs));
    let ghost wit: Seq<ColorV> = if canonical {
        choose|cs: Seq<ColorV>|
            wf_colors(cs) && (spec_strip(s@, false) == doc_json(cs) || spec_strip(s@, false)
                == doc_json_noschema(cs))
    } else {
        Seq::empty()
    };
    let ghost wit_schema = spec_strip(s@, false) == doc_json(wit);
    let stripped = strip_ws(s);
    let ts = scan_strings(stripped.as_str());
    let ghost tsv = string_views(ts@);
    proof {
        reveal_strlit("$schema");
        reveal_strlit("colors");
        if canonical {
            if wit_schema {
                lemma_scan_doc(wit);
                lemma_rebuild_doc(wit);
                assert(tsv == doc_tokens(wit));
                assert(tsv.len() >= 3);
                assert(tsv[0] == "$schema"@ && tsv[1] == schema_ref() && tsv[2] == "colors"@);
            } else {
                lemma_scan_doc_noschema(wit);
                assert(tsv == seq!["colors"@] + entries_tokens(wit));
                assert(tsv.len() >= 1);
                assert(tsv[0] == "colors"@);
                assert(tsv.subrange(1, tsv.len() as int) =~= entries_tokens(wit));
                lemma_rebuild_entries(tsv, 1, wit);
            }
            assert("$schema"@ != "colors"@);
        }
    }
    let n = ts.len();
    let schema_key = String::from_str("$schema");
    let colors_key = String::from_str("colors");
    let hex_key = String::from_str("hex_color");
    let name_key = String::from_str("name");
    if n < 1 {
        return Err(ApiError::Document(String::from_str("the text is not a palette document in this store's format")));
    }
    proof {
        assert(tsv[0] == ts@[0]@);
    }
    let has_schema = ts[0] == schema_key;
    if has_schema {
        if n < 3 {
            return Err(ApiError::Document(String::from_str("the text is not a palette document in this store's format")));
        }
        proof {
            assert(tsv[2] == ts@[2]@);
        }
        if !(ts[2] == colors_key) {
            return Err(ApiError::Document(String::from_str("the text is not a palette document in this store's format")));
        }
    } else {
        if !(ts[0] == colors_key) {
            return Err(ApiError::Document(String::from_str("the text is not a palette document in this store's format")));
        }
    }
    let start: usize = if has_schema {
        3
    } else {
        1
    };
    let mut colors: Vec<Color> = Vec::new();
    let mut k: usize = start;
    proof {
        if canonical {
            assert(has_schema == wit_schema);
            assert(wit =~= color_views(colors@) + wit);
        }
    }
    while k < n
        invariant
            n == ts@.len(),
            k <= n,
            tsv == string_views(ts@),
            hex_key@ == "hex_color"@,
            name_key@ == "name"@,
            canonical == (exists|cs: Seq<ColorV>|
                wf_colors(cs) && (spec_strip(s@, false) == doc_json(cs) || spec_strip(s@, false)
                    == doc_json_noschema(cs))),
            canonical ==> wf_colors(wit) && (spec_strip(s@, false) == doc_json(wit)
                || spec_strip(s@, false) == doc_json_noschema(wit)),
            wit_schema == (spec_strip(s@, false) == doc_json(wit)),
            canonical ==> (spec_rebuild(tsv, k as int) matches Some(rest) && wit == color_views(
                colors@,
            ) + rest),
            forall|q: int| 0 <= q < ts@.len() ==> quote_free(#[trigger] ts@[q]@),
            forall|q: int| 0 <= q < colors@.len() ==> wf_color(#[trigger] colors@[q]@),
        decreases n - k,
    {
        proof {
            assert(tsv[k as int] == ts@[k as int]@);
        }
        let rem = n - k;
        if rem < 2 {
            proof {
                if canonical {
                    assert(spec_rebuild(tsv, k as int) is None);
                }
            }
            return Err(ApiError::Document(String::from_str("the text is not a palette document in this store's format")));
        }
        if !(ts[k] == hex_key) {
            proof {
                if canonical {
                    assert(spec_rebuild(tsv, k as int) is None);
                }
            }
            return Err(ApiError::Document(String::from_str("the text is not a palette document in this store's format")));
        }
        let hex = ts[k + 1].clone();
        let mut name: Option<String> = None;
        let mut step: usize = 2;
        if rem >= 4 && ts[k + 2] == name_key {
            name = Some(ts[k + 3].clone());
            step = 4;
        } else if rem == 3 && ts[k + 2] == name_key {
            proof {
                if canonical {
                    assert(tsv[k as int + 2] == ts@[k as int + 2]@);
                    assert(spec_rebuild(tsv, k as int) is None);
                }
            }
            return Err(ApiError::Document(String::from_str("the text is not a palette document in this store's format")));
        }
        colors.push(Color { hex_color: hex, name });
        proof {
            if canonical {
                if step == 4 {
                    assert(tsv[k as int + 2] == ts@[k as int + 2]@);
                    assert(tsv[k as int + 1] == ts@[k as int + 1]@);
                    assert(tsv[k as int + 3] == ts@[k as int + 3]@);
                    let rest0 = spec_rebuild(tsv, k as int)->0;
                    let rest1 = spec_rebuild(tsv, k as int + 4)->0;
                    assert(colors@.last()@ == (ColorV {
                        hex_color: tsv[k as int + 1],
                        name: Some(tsv[k as int + 3]),
                    }));
                    assert(rest0 == seq![colors@.last()@] + rest1);
                    assert(color_views(colors@) =~= color_views(colors@.drop_last()) + seq![
                        colors@.last()@,
                    ]);
                    assert((color_views(colors@.drop_last()) + seq![colors@.last()@]) + rest1
                        =~= color_views(colors@.drop_last()) + (seq![colors@.last()@] + rest1));
                } else {
                    if n - k >= 3 {
                        assert(tsv[k as int + 2] == ts@[k as int + 2]@);
                    }
                    assert(tsv[k as int + 1] == ts@[k as int + 1]@);
                    let rest0 = spec_rebuild(tsv, k as int)->0;
                    let rest1 = spec_rebuild(tsv, k as int + 2)->0;
                    assert(colors@.last()@ == (ColorV {
                        hex_color: tsv[k as int + 1],
                        name: None,
                    }));
                    assert(rest0 == seq![colors@.last()@] + rest1);
                    assert(color_views(colors@) =~= color_views(colors@.drop_last()) + seq![
                        colors@.last()@,
                    ]);
                    assert((color_views(colors@.drop_last()) + seq![colors@.last()@]) + rest1
                        =~= color_views(colors@.drop_last()) + (seq![colors@.last()@] + rest1));
                }
            }
        }
        k = k + step;
    }
    let d = ColorsJson {
        schema: if has_schema {
            Some(String::from_str(schema_ref_str()))
        } else {
            None
        },
        colors,
    };
    proof {
        assert forall|q: int| 0 <= q < d@.colors.len() implies wf_color(
            #[trigger] d@.colors[q],
        ) by {
            assert(d@.colors[q] == d.colors@[q]@);
        }
        assert(d@.colors =~= color_views(d.colors@));
        if canonical {
            assert(spec_rebuild(tsv, k as int) == Some(Seq::<ColorV>::empty()));
            assert(wit =~= color_views(d.colors@));
        }
    }
    let enc = render_doc(has_schema, &d.colors);
    if enc == stripped {
        Ok(d)
    } else {
        proof {
            if canonical {
                assert(false);
            }
        }
        Err(ApiError::Document(String::from_str("the text is not a palette document in this store's format")))
    }
}

/// The text holds no quote character, so a rendered string field ends at the
/// first quote after it.
pub open spec fn quote_free(s: Seq<char>) -> bool {
    forall|i: int| 0 <= i < s.len() ==> s[i] != '"'
}

/// The entry's text fields hold no quote character. Rendering is exact for
/// every entry; reading a rendered document back recovers the entry only
/// under this condition.
pub open spec fn wf_color(c: ColorV) -> bool {
    &&& quote_free(c.hex_color)
    &&& match c.name {
        Some(n) => quote_free(n),
        None => true,
    }
}

/// Every entry of the sequence is well formed.
pub open spec fn wf_colors(cs: Seq<ColorV>) -> bool {
    forall|i: int| 0 <= i < cs.len() ==> wf_color(#[trigger] cs[i])
}

/// Equal sequences with an equal prefix have equal remainders.
proof fn lemma_cancel_left(a: Seq<char>, b: Seq<char>, c: Seq<char>)
    requires
        a + b == a + c,
    ensures
        b == c,
{
    assert((a + b).len() == a.len() + b.len());
    assert((a + c).len() == a.len() + c.len());
    assert(b.len() == c.len());
    assert forall|i: int| 0 <= i < b.len() implies b[i] == c[i] by {
        assert((a + b)[a.len() + i] == b[i]);
        assert((a + c)[a.len() + i] == c[i]);
    }
    assert(b =~= c);
}

/// The entry list's text starts with its first entry, the rest after a comma.
proof fn lemma_entries_head(cs: Seq<ColorV>)
    requires
        cs.len() >= 1,
    ensures
        cs.len() == 1 ==> entries_json(cs) == entry_json(cs[0]),
        cs.len() >= 2 ==> entries_json(cs) == entry_json(cs[0]) + (","@ + entries_json(
            cs.drop_first(),
        )),
    decreases cs.len(),
{
    if cs.len() == 1 {
    } else if cs.len() == 2 {
        let dl = cs.drop_last();
        let df = cs.drop_first();
        assert(dl.len() == 1);
        assert(entries_json(cs) == entries_json(dl) + ","@ + entry_json(cs.last()));
        assert(entries_json(dl) == entry_json(dl[0]));
        assert(dl[0] == cs[0]);
        assert(df.len() == 1);
        assert(df[0] == cs.last());
        assert(entries_json(df) == entry_json(df[0]));
        assert(entry_json(cs[0]) + ","@ + entry_json(cs.last()) =~= entry_json(cs[0]) + (","@
            + entries_json(df)));
    } else {
        let dl = cs.drop_last();
        let df = cs.drop_first();
        lemma_entries_head(dl);
        assert(dl.len() >= 2);
        assert(entries_json(cs) == entries_json(dl) + ","@ + entry_json(cs.last()));
        assert(entries_json(dl) == entry_json(dl[0]) + (","@ + entries_json(dl.drop_first())));
        assert(dl[0] == cs[0]);
        assert(dl.drop_first() =~= df.drop_last());
        assert(df.len() >= 2);
        assert(entries_json(df) == entries_json(df.drop_last()) + ","@ + entry_json(df.last()));
        assert(df.last() == cs.last());
        assert((entry_json(cs[0]) + (","@ + entries_json(df.drop_last()))) + ","@ + entry_json(
            cs.last(),
        ) =~= entry_json(cs[0]) + (","@ + entries_json(df)));
    }
}

/// A quote-free run ends at the first quote: splitting two equal texts at
/// their first quote gives the same pieces.
proof fn lemma_quote_split(a1: Seq<char>, a2: Seq<char>, t1: Seq<char>, t2: Seq<char>)
    requires
        quote_free(a1),
        quote_free(a2),
        t1.len() > 0,
        t1[0] == '"',
        t2.len() > 0,
        t2[0] == '"',
        a1 + t1 == a2 + t2,
    ensures
        a1 == a2,
        t1 == t2,
{
    if a1.len() < a2.len() {
        assert((a1 + t1)[a1.len() as int] == t1[0]);
        assert((a2 + t2)[a1.len() as int] == a2[a1.len() as int]);
        assert(false);
    }
    if a2.len() < a1.len() {
        assert((a2 + t2)[a2.len() as int] == t2[0]);
        assert((a1 + t1)[a2.len() as int] == a1[a2.len() as int]);
        assert(false);
    }
    assert forall|i: int| 0 <= i < a1.len() implies a1[i] == a2[i] by {
        assert((a1 + t1)[i] == a1[i]);
        assert((a2 + t2)[i] == a2[i]);
    }
    assert(a1 =~= a2);
    lemma_cancel_left(a1, t1, t2);
}

/// A rendered entry determines itself at the head of any text: if two entry
/// texts agree up to arbitrary remainders, the entries and the remainders
/// are the same.
proof fn lemma_entry_prefix(c1: ColorV, c2: ColorV, r1: Seq<char>, r2: Seq<char>)
    requires
        wf_color(c1),
        wf_color(c2),
        entry_json(c1) + r1 == entry_json(c2) + r2,
    ensures
        c1 == c2,
        r1 == r2,
{
    let key = "{\"hex_color\":\""@;
    let nm = "\",\"name\":\""@;
    let end = "\"}"@;
    reveal_strlit("{\"hex_color\":\"");
    reveal_strlit("\",\"name\":\"");
    reveal_strlit("\"}");
    let tail1 = match c1.name {
        None => end,
        Some(n) => nm + n + end,
    };
    let tail2 = match c2.name {
        None => end,
        Some(n) => nm + n + end,
    };
    assert(entry_json(c1) + r1 =~= key + ((c1.hex_color + (tail1 + r1))));
    assert(entry_json(c2) + r2 =~= key + ((c2.hex_color + (tail2 + r2))));
    lemma_cancel_left(key, c1.hex_color + (tail1 + r1), c2.hex_color + (tail2 + r2));
    assert(tail1[0] == '"' && tail1.len() > 0) by {
        if c1.name is Some {
            assert(tail1[0] == nm[0]);
        }
    }
    assert(tail2[0] == '"' && tail2.len() > 0) by {
        if c2.name is Some {
            assert(tail2[0] == nm[0]);
        }
    }
    lemma_quote_split(c1.hex_color, c2.hex_color, tail1 + r1, tail2 + r2);
    match (c1.name, c2.name) {
        (None, None) => {
            lemma_cancel_left(end, r1, r2);
            assert(c1 =~= c2);
        },
        (None, Some(n2)) => {
            assert((end + r1)[1] == end[1]);
            assert(((nm + n2 + end) + r2) =~= nm + ((n2 + (end + r2))));
            assert((nm + (n2 + (end + r2)))[1] == nm[1]);
            assert(false);
        },
        (Some(n1), None) => {
            assert((end + r2)[1] == end[1]);
            assert(((nm + n1 + end) + r1) =~= nm + ((n1 + (end + r1))));
            assert((nm + (n1 + (end + r1)))[1] == nm[1]);
            assert(false);
        },
        (Some(n1), Some(n2)) => {
            assert(((nm + n1 + end) + r1) =~= nm + ((n1 + (end + r1))));
            assert(((nm + n2 + end) + r2) =~= nm + ((n2 + (end + r2))));
            lemma_cancel_left(nm, n1 + (end + r1), n2 + (end + r2));
            assert(end[0] == '"');
            assert((end + r1)[0] == '"' && (end + r2)[0] == '"');
            lemma_quote_split(n1, n2, end + r1, end + r2);
            lemma_cancel_left(end, r1, r2);
            assert(c1 =~= c2);
        },
    }
}

/// A rendered entry is at least 16 characters and opens with a brace.
proof fn lemma_entry_shape(c: ColorV)
    ensures
        entry_json(c).len() >= 16,
        entry_json(c)[0] == '{',
{
    let key = "{\"hex_color\":\""@;
    reveal_strlit("{\"hex_color\":\"");
    reveal_strlit("\",\"name\":\"");
    reveal_strlit("\"}");
    match c.name {
        None => {
            assert(entry_json(c)[0] == key[0]);
        },
        Some(n) => {
            assert(entry_json(c)[0] == key[0]);
        },
    }
}

/// Entry lists render injectively ahead of a bracket-closed remainder.
proof fn lemma_entries_prefix(cs1: Seq<ColorV>, cs2: Seq<ColorV>, t1: Seq<char>, t2: Seq<char>)
    requires
        wf_colors(cs1),
        wf_colors(cs2),
        t1.len() > 0,
        t1[0] == ']',
        t2.len() > 0,
        t2[0] == ']',
        entries_json(cs1) + t1 == entries_json(cs2) + t2,
    ensures
        cs1 == cs2,
        t1 == t2,
    decreases cs1.len(),
{
    let comma = ","@;
    reveal_strlit(",");
    if cs1.len() == 0 && cs2.len() == 0 {
        assert(entries_json(cs1) + t1 =~= t1);
        assert(entries_json(cs2) + t2 =~= t2);
        assert(cs1 =~= cs2);
    } else if cs1.len() == 0 {
        lemma_entry_shape(cs2[0]);
        lemma_entries_head(cs2);
        assert(entries_json(cs1) + t1 =~= t1);
        assert((entries_json(cs2) + t2)[0] == entry_json(cs2[0])[0]);
        assert(false);
    } else if cs2.len() == 0 {
        lemma_entry_shape(cs1[0]);
        lemma_entries_head(cs1);
        assert(entries_json(cs2) + t2 =~= t2);
        assert((entries_json(cs1) + t1)[0] == entry_json(cs1[0])[0]);
        assert(false);
    } else {
        lemma_entries_head(cs1);
        lemma_entries_head(cs2);
        assert(wf_color(cs1[0]));
        assert(wf_color(cs2[0]));
        let rest1: Seq<char> = if cs1.len() == 1 {
            t1
        } else {
            comma + (entries_json(cs1.drop_first()) + t1)
        };
        let rest2: Seq<char> = if cs2.len() == 1 {
            t2
        } else {
            comma + (entries_json(cs2.drop_first()) + t2)
        };
        assert(entries_json(cs1) + t1 =~= entry_json(cs1[0]) + rest1);
        assert(entries_json(cs2) + t2 =~= entry_json(cs2[0]) + rest2);
        lemma_entry_prefix(cs1[0], cs2[0], rest1, rest2);
        if cs1.len() == 1 && cs2.len() >= 2 {
            assert(rest2[0] == comma[0]);
            assert(false);
        }
        if cs2.len() == 1 && cs1.len() >= 2 {
            assert(rest1[0] == comma[0]);
            assert(false);
        }
        if cs1.len() == 1 {
            assert(cs1 =~= cs2);
        } else {
            let df1 = cs1.drop_first();
            let df2 = cs2.drop_first();
            lemma_cancel_left(comma, entries_json(df1) + t1, entries_json(df2) + t2);
            assert(wf_colors(df1)) by {
                assert forall|i: int| 0 <= i < df1.len() implies wf_color(#[trigger] df1[i]) by {
                    assert(df1[i] == cs1[i + 1]);
                }
            }
            assert(wf_colors(df2)) by {
                assert forall|i: int| 0 <= i < df2.len() implies wf_color(#[trigger] df2[i]) by {
                    assert(df2[i] == cs2[i + 1]);
                }
            }
            lemma_entries_prefix(df1, df2, t1, t2);
            assert forall|i: int| 0 <= i < cs1.len() implies cs1[i] == cs2[i] by {
                if i > 0 {
                    assert(df1[i - 1] == cs1[i]);
                    assert(df2[i - 1] == cs2[i]);
                }
            }
            assert(cs1 =~= cs2);
        }
    }
}

/// Palette round trip: two palette documents that render to the same text
/// hold the same colors. `encode_colors` renders every document it accepts
/// to exactly `doc_json` of its colors, `parse_colors` accepts every such
/// text and only ever returns colors whose `doc_json` is the text read, so
/// writing a palette and reading the text back yields the written color
/// sequence. Holds for entries whose strings carry no quote character; the
/// format has no escapes, and the writer refuses the rest.
pub proof fn lemma_doc_json_injective(cs1: Seq<ColorV>, cs2: Seq<ColorV>)
    requires
        wf_colors(cs1),
        wf_colors(cs2),
        doc_json(cs1) == doc_json(cs2),
    ensures
        cs1 == cs2,
{
    let head = "{\"$schema\":\""@ + schema_ref() + "\",\"colors\":["@;
    let tail = "]}"@;
    reveal_strlit("]}");
    assert(doc_json(cs1) =~= head + (entries_json(cs1) + tail));
    assert(doc_json(cs2) =~= head + (entries_json(cs2) + tail));
    lemma_cancel_left(head, entries_json(cs1) + tail, entries_json(cs2) + tail);
    lemma_entries_prefix(cs1, cs2, tail, tail);
}

/// An entry with no name renders with no name key at all: its whole text is
/// the brace-quoted hex field, sixteen characters beyond the hex string, with
/// nothing else in it.
pub proof fn lemma_name_omitted(c: ColorV)
    requires
        c.name is None,
    ensures
        entry_json(c) == "{\"hex_color\":\""@ + c.hex_color + "\"}"@,
        entry_json(c).len() == 16 + c.hex_color.len(),
{
    reveal_strlit("{\"hex_color\":\"");
    reveal_strlit("\"}");
}

/// Scanning skips a quote-free run outside any string.
proof fn lemma_scan_glue(g: Seq<char>, rest: Seq<char>)
    requires
        quote_free(g),
    ensures
        spec_scan(g + rest, None) == spec_scan(rest, None),
    decreases g.len(),
{
    if g.len() == 0 {
        assert(g + rest =~= rest);
    } else {
        assert((g + rest)[0] == g[0]);
        assert((g + rest).drop_first() =~= g.drop_first() + rest);
        assert(quote_free(g.drop_first())) by {
            assert forall|m: int| 0 <= m < g.drop_first().len() implies g.drop_first()[m] != '"' by {
                assert(g.drop_first()[m] == g[m + 1]);
            }
        }
        lemma_scan_glue(g.drop_first(), rest);
    }
}

/// Scanning inside an open string collects its quote-free remainder up to the
/// closing quote.
proof fn lemma_scan_in_token(t: Seq<char>, done: Seq<char>, rest: Seq<char>)
    requires
        quote_free(t),
    ensures
        spec_scan(t + ("\""@ + rest), Some(done)) == seq![done + t] + spec_scan(rest, None),
    decreases t.len(),
{
    reveal_strlit("\"");
    let s = t + ("\""@ + rest);
    if t.len() == 0 {
        assert(s =~= "\""@ + rest);
        assert(s[0] == '"');
        assert(s.drop_first() =~= rest);
        assert(done + t =~= done);
    } else {
        assert(s[0] == t[0]);
        assert(s.drop_first() =~= t.drop_first() + ("\""@ + rest));
        assert(quote_free(t.drop_first())) by {
            assert forall|m: int| 0 <= m < t.drop_first().len() implies t.drop_first()[m] != '"' by {
                assert(t.drop_first()[m] == t[m + 1]);
            }
        }
        lemma_scan_in_token(t.drop_first(), done.push(t[0]), rest);
        assert(done.push(t[0]) + t.drop_first() =~= done + t);
    }
}

/// Scanning a quote-free run, then a quoted quote-free string, collects that
/// string and goes on behind its closing quote.
proof fn lemma_scan_gt(g: Seq<char>, t: Seq<char>, rest: Seq<char>)
    requires
        quote_free(g),
        quote_free(t),
    ensures
        spec_scan(g + ("\""@ + (t + ("\""@ + rest))), None) == seq![t] + spec_scan(rest, None),
{
    reveal_strlit("\"");
    let opened = "\""@ + (t + ("\""@ + rest));
    lemma_scan_glue(g, opened);
    assert(opened[0] == '"');
    assert(opened.drop_first() =~= t + ("\""@ + rest));
    lemma_scan_in_token(t, Seq::empty(), rest);
    assert(Seq::empty() + t =~= t);
}

/// The strings a scan collects from one rendered entry, in order.
pub open spec fn entry_tokens(c: ColorV) -> Seq<Seq<char>> {
    match c.name {
        None => seq!["hex_color"@, c.hex_color],
        Some(n) => seq!["hex_color"@, c.hex_color, "name"@, n],
    }
}

/// The strings a scan collects from a rendered entry list, in order.
pub open spec fn entries_tokens(cs: Seq<ColorV>) -> Seq<Seq<char>>
    decreases cs.len(),
{
    if cs.len() == 0 {
        Seq::empty()
    } else {
        entry_tokens(cs[0]) + entries_tokens(cs.drop_first())
    }
}

/// The strings a scan collects from a whole rendered document, in order.
pub open spec fn doc_tokens(cs: Seq<ColorV>) -> Seq<Seq<char>> {
    seq!["$schema"@, schema_ref(), "colors"@] + entries_tokens(cs)
}

/// Scanning a rendered entry list followed by the closing brackets collects
/// exactly the entries' strings.
#[verifier::rlimit(60)]
proof fn lemma_scan_entries(cs: Seq<ColorV>)
    requires
        wf_colors(cs),
    ensures
        spec_scan(entries_json(cs) + "]}"@, None) == entries_tokens(cs),
    decreases cs.len(),
{
    reveal_strlit("\"");
    reveal_strlit("]}");
    reveal_strlit("{");
    reveal_strlit(":");
    reveal_strlit(",");
    reveal_strlit("}");
    reveal_strlit("}]}");
    reveal_strlit("},");
    reveal_strlit("hex_color");
    reveal_strlit("name");
    reveal_strlit("{\"hex_color\":\"");
    reveal_strlit("\",\"name\":\"");
    reveal_strlit("\"}");
    if cs.len() == 0 {
        assert(entries_json(cs) + "]}"@ =~= "]}"@ + Seq::<char>::empty());
        assert(quote_free("]}"@));
        lemma_scan_glue("]}"@, Seq::empty());
        assert(spec_scan(Seq::<char>::empty(), None) == Seq::<Seq<char>>::empty());
    } else {
        lemma_entries_head(cs);
        assert(wf_color(cs[0]));
        let c = cs[0];
        let after_entry: Seq<char> = if cs.len() == 1 {
            "]}"@
        } else {
            ","@ + (entries_json(cs.drop_first()) + "]}"@)
        };
        assert(entries_json(cs) + "]}"@ =~= entry_json(c) + after_entry);
        // After the hex string's closing quote: the name field if present,
        // then the closing brace and whatever follows the entry.
        let after_hex: Seq<char> = match c.name {
            None => "}"@ + after_entry,
            Some(n) => ","@ + ("\""@ + ("name"@ + ("\""@ + (":"@ + ("\""@ + (n + ("\""@ + ("}"@
                + after_entry)))))))),
        };
        assert(entry_json(c) + after_entry =~= "{"@ + ("\""@ + ("hex_color"@ + ("\""@ + (":"@
            + ("\""@ + (c.hex_color + ("\""@ + after_hex))))))));
        assert(quote_free("{"@));
        assert(quote_free(":"@));
        assert(quote_free(","@));
        assert(quote_free("}"@));
        assert(quote_free("hex_color"@));
        assert(quote_free("name"@));
        lemma_scan_gt("{"@, "hex_color"@, ":"@ + ("\""@ + (c.hex_color + ("\""@ + after_hex))));
        lemma_scan_gt(":"@, c.hex_color, after_hex);
        let after_name: Seq<char> = "}"@ + after_entry;
        if c.name is Some {
            let n = c.name->0;
            assert(after_hex =~= ","@ + ("\""@ + ("name"@ + ("\""@ + (":"@ + ("\""@ + (n + ("\""@
                + after_name))))))));
            lemma_scan_gt(","@, "name"@, ":"@ + ("\""@ + (n + ("\""@ + after_name))));
            lemma_scan_gt(":"@, n, after_name);
        }
        if cs.len() == 1 {
            assert(after_name =~= "}]}"@ + Seq::<char>::empty());
            assert(quote_free("}]}"@));
            lemma_scan_glue("}]}"@, Seq::empty());
            assert(entries_tokens(cs.drop_first()) == Seq::<Seq<char>>::empty());
        } else {
            let df = cs.drop_first();
            assert(after_name =~= "},"@ + (entries_json(df) + "]}"@));
            assert(quote_free("},"@));
            lemma_scan_glue("},"@, entries_json(df) + "]}"@);
            assert(wf_colors(df)) by {
                assert forall|m: int| 0 <= m < df.len() implies wf_color(#[trigger] df[m]) by {
                    assert(df[m] == cs[m + 1]);
                }
            }
            lemma_scan_entries(df);
        }
        match c.name {
            None => {
                assert(spec_scan(entries_json(cs) + "]}"@, None) =~= entry_tokens(c)
                    + entries_tokens(cs.drop_first()));
            },
            Some(n) => {
                assert(spec_scan(entries_json(cs) + "]}"@, None) =~= entry_tokens(c)
                    + entries_tokens(cs.drop_first()));
            },
        }
    }
}

/// Scanning a whole rendered document collects exactly its strings: the two
/// header keys with the fixed schema reference, then each entry's fields.
proof fn lemma_scan_doc(cs: Seq<ColorV>)
    requires
        wf_colors(cs),
    ensures
        spec_scan(doc_json(cs), None) == doc_tokens(cs),
{
    reveal_strlit("\"");
    reveal_strlit("{");
    reveal_strlit(":");
    reveal_strlit(",");
    reveal_strlit(":[");
    reveal_strlit("$schema");
    reveal_strlit("colors");
    reveal_strlit("{\"$schema\":\"");
    reveal_strlit("\",\"colors\":[");
    reveal_strlit("./colors.schema.json");
    assert(quote_free("{"@));
    assert(quote_free(":"@));
    assert(quote_free(","@));
    assert(quote_free(":["@));
    assert(quote_free("$schema"@));
    assert(quote_free("colors"@));
    assert(quote_free(schema_ref()));
    let rest3 = ":["@ + (entries_json(cs) + "]}"@);
    let rest2 = ","@ + ("\""@ + ("colors"@ + ("\""@ + rest3)));
    let rest1 = ":"@ + ("\""@ + (schema_ref() + ("\""@ + rest2)));
    assert(doc_json(cs) =~= "{"@ + ("\""@ + ("$schema"@ + ("\""@ + rest1))));
    lemma_scan_gt("{"@, "$schema"@, rest1);
    lemma_scan_gt(":"@, schema_ref(), rest2);
    lemma_scan_gt(","@, "colors"@, rest3);
    lemma_scan_glue(":["@, entries_json(cs) + "]}"@);
    lemma_scan_entries(cs);
    assert(seq!["$schema"@] + (seq![schema_ref()] + (seq!["colors"@] + entries_tokens(cs)))
        =~= doc_tokens(cs));
}

/// Scanning a rendered document without a schema field collects the colors
/// key and then each entry's strings.
proof fn lemma_scan_doc_noschema(cs: Seq<ColorV>)
    requires
        wf_colors(cs),
    ensures
        spec_scan(doc_json_noschema(cs), None) == seq!["colors"@] + entries_tokens(cs),
{
    reveal_strlit("\"");
    reveal_strlit("{");
    reveal_strlit(":[");
    reveal_strlit("colors");
    reveal_strlit("{\"colors\":[");
    assert(quote_free("{"@));
    assert(quote_free(":["@));
    assert(quote_free("colors"@));
    let rest = ":["@ + (entries_json(cs) + "]}"@);
    assert(doc_json_noschema(cs) =~= "{"@ + ("\""@ + ("colors"@ + ("\""@ + rest))));
    lemma_scan_gt("{"@, "colors"@, rest);
    lemma_scan_glue(":["@, entries_json(cs) + "]}"@);
    lemma_scan_entries(cs);
}


/// No whitespace character hides in the text.
pub open spec fn ws_free(s: Seq<char>) -> bool {
    forall|i: int| 0 <= i < s.len() ==> !is_ws(#[trigger] s[i])
}

/// Stripping passes a quote-free, whitespace-free run through unchanged.
proof fn lemma_strip_glue(g: Seq<char>, rest: Seq<char>)
    requires
        quote_free(g),
        ws_free(g),
    ensures
        spec_strip(g + rest, false) == g + spec_strip(rest, false),
    decreases g.len(),
{
    if g.len() == 0 {
        assert(g + rest =~= rest);
        assert(g + spec_strip(rest, false) =~= spec_strip(rest, false));
    } else {
        assert((g + rest)[0] == g[0]);
        assert((g + rest).drop_first() =~= g.drop_first() + rest);
        assert(quote_free(g.drop_first()) && ws_free(g.drop_first())) by {
            assert forall|m: int| 0 <= m < g.drop_first().len() implies g.drop_first()[m] != '"'
                && !is_ws(g.drop_first()[m]) by {
                assert(g.drop_first()[m] == g[m + 1]);
            }
        }
        lemma_strip_glue(g.drop_first(), rest);
        assert(seq![g[0]] + (g.drop_first() + spec_strip(rest, false)) =~= g + spec_strip(
            rest,
            false,
        ));
    }
}

/// Stripping keeps everything inside a quoted string.
proof fn lemma_strip_in_token(t: Seq<char>, rest: Seq<char>)
    requires
        quote_free(t),
    ensures
        spec_strip(t + ("\""@ + rest), true) == t + ("\""@ + spec_strip(rest, false)),
    decreases t.len(),
{
    reveal_strlit("\"");
    let s = t + ("\""@ + rest);
    if t.len() == 0 {
        assert(s =~= "\""@ + rest);
        assert(s[0] == '"');
        assert(s.drop_first() =~= rest);
        assert(seq!['"'] + spec_strip(rest, false) =~= "\""@ + spec_strip(rest, false));
        assert(t + ("\""@ + spec_strip(rest, false)) =~= "\""@ + spec_strip(rest, false));
    } else {
        assert(s[0] == t[0]);
        assert(s.drop_first() =~= t.drop_first() + ("\""@ + rest));
        assert(quote_free(t.drop_first())) by {
            assert forall|m: int| 0 <= m < t.drop_first().len() implies t.drop_first()[m] != '"' by {
                assert(t.drop_first()[m] == t[m + 1]);
            }
        }
        lemma_strip_in_token(t.drop_first(), rest);
        assert(seq![t[0]] + (t.drop_first() + ("\""@ + spec_strip(rest, false))) =~= t + ("\""@
            + spec_strip(rest, false)));
    }
}

/// Stripping passes a quote-free run and a quoted string through unchanged.
proof fn lemma_strip_gt(g: Seq<char>, t: Seq<char>, rest: Seq<char>)
    requires
        quote_free(g),
        ws_free(g),
        quote_free(t),
    ensures
        spec_strip(g + ("\""@ + (t + ("\""@ + rest))), false) == g + ("\""@ + (t + ("\""@
            + spec_strip(rest, false)))),
{
    reveal_strlit("\"");
    let opened = "\""@ + (t + ("\""@ + rest));
    lemma_strip_glue(g, opened);
    assert(opened[0] == '"');
    assert(opened.drop_first() =~= t + ("\""@ + rest));
    lemma_strip_in_token(t, rest);
    assert(seq!['"'] + (t + ("\""@ + spec_strip(rest, false))) =~= "\""@ + (t + ("\""@
        + spec_strip(rest, false))));
}

/// A rendered entry list carries no whitespace outside its quoted strings:
/// stripping leaves it unchanged.
#[verifier::rlimit(60)]
proof fn lemma_strip_entries(cs: Seq<ColorV>)
    requires
        wf_colors(cs),
    ensures
        spec_strip(entries_json(cs) + "]}"@, false) == entries_json(cs) + "]}"@,
    decreases cs.len(),
{
    reveal_strlit("\"");
    reveal_strlit("]}");
    reveal_strlit("{");
    reveal_strlit(":");
    reveal_strlit(",");
    reveal_strlit("}");
    reveal_strlit("}]}");
    reveal_strlit("},");
    reveal_strlit("hex_color");
    reveal_strlit("{\"hex_color\":\"");
    reveal_strlit("\",\"name\":\"");
    reveal_strlit("\"}");
    reveal_strlit("name");
    if cs.len() == 0 {
        assert(entries_json(cs) + "]}"@ =~= "]}"@ + Seq::<char>::empty());
        assert(quote_free("]}"@) && ws_free("]}"@));
        lemma_strip_glue("]}"@, Seq::empty());
        assert(spec_strip(Seq::<char>::empty(), false) == Seq::<char>::empty());
        assert("]}"@ + Seq::<char>::empty() =~= entries_json(cs) + "]}"@);
        assert("]}"@ + spec_strip(Seq::<char>::empty(), false) =~= entries_json(cs) + "]}"@);
    } else {
        lemma_entries_head(cs);
        assert(wf_color(cs[0]));
        let c = cs[0];
        let after_entry: Seq<char> = if cs.len() == 1 {
            "]}"@
        } else {
            ","@ + (entries_json(cs.drop_first()) + "]}"@)
        };
        assert(entries_json(cs) + "]}"@ =~= entry_json(c) + after_entry);
        let after_hex: Seq<char> = match c.name {
            None => "}"@ + after_entry,
            Some(n) => ","@ + ("\""@ + ("name"@ + ("\""@ + (":"@ + ("\""@ + (n + ("\""@ + ("}"@
                + after_entry)))))))),
        };
        assert(entry_json(c) + after_entry =~= "{"@ + ("\""@ + ("hex_color"@ + ("\""@ + (":"@
            + ("\""@ + (c.hex_color + ("\""@ + after_hex))))))));
        assert(quote_free("{"@) && ws_free("{"@));
        assert(quote_free(":"@) && ws_free(":"@));
        assert(quote_free(","@) && ws_free(","@));
        assert(quote_free("hex_color"@) && ws_free("hex_color"@));
        assert(quote_free("name"@) && ws_free("name"@));
        lemma_strip_gt("{"@, "hex_color"@, ":"@ + ("\""@ + (c.hex_color + ("\""@ + after_hex))));
        lemma_strip_gt(":"@, c.hex_color, after_hex);
        let after_name: Seq<char> = "}"@ + after_entry;
        if c.name is Some {
            let n = c.name->0;
            assert(after_hex =~= ","@ + ("\""@ + ("name"@ + ("\""@ + (":"@ + ("\""@ + (n + ("\""@
                + after_name))))))));
            lemma_strip_gt(","@, "name"@, ":"@ + ("\""@ + (n + ("\""@ + after_name))));
            lemma_strip_gt(":"@, n, after_name);
        }
        if cs.len() == 1 {
            assert(after_name =~= "}]}"@ + Seq::<char>::empty());
            assert(quote_free("}]}"@) && ws_free("}]}"@));
            lemma_strip_glue("}]}"@, Seq::empty());
        } else {
            let df = cs.drop_first();
            assert(after_name =~= "},"@ + (entries_json(df) + "]}"@));
            assert(quote_free("},"@) && ws_free("},"@));
            lemma_strip_glue("},"@, entries_json(df) + "]}"@);
            assert(wf_colors(df)) by {
                assert forall|m: int| 0 <= m < df.len() implies wf_color(#[trigger] df[m]) by {
                    assert(df[m] == cs[m + 1]);
                }
            }
            lemma_strip_entries(df);
        }
        assert(spec_strip(entries_json(cs) + "]}"@, false) =~= entries_json(cs) + "]}"@);
    }
}

/// A rendered document carries no whitespace outside its quoted strings:
/// stripping leaves it unchanged.
pub proof fn lemma_strip_doc(cs: Seq<ColorV>)
    requires
        wf_colors(cs),
    ensures
        spec_strip(doc_json(cs), false) == doc_json(cs),
{
    reveal_strlit("\"");
    reveal_strlit("{");
    reveal_strlit(":");
    reveal_strlit(",");
    reveal_strlit(":[");
    reveal_strlit("$schema");
    reveal_strlit("colors");
    reveal_strlit("{\"$schema\":\"");
    reveal_strlit("\",\"colors\":[");
    reveal_strlit("./colors.schema.json");
    assert(quote_free("{"@) && ws_free("{"@));
    assert(quote_free(":"@) && ws_free(":"@));
    assert(quote_free(","@) && ws_free(","@));
    assert(quote_free(":["@) && ws_free(":["@));
    assert(quote_free("$schema"@) && ws_free("$schema"@));
    assert(quote_free("colors"@) && ws_free("colors"@));
    assert(quote_free(schema_ref()) && ws_free(schema_ref()));
    let rest3 = ":["@ + (entries_json(cs) + "]}"@);
    let rest2 = ","@ + ("\""@ + ("colors"@ + ("\""@ + rest3)));
    let rest1 = ":"@ + ("\""@ + (schema_ref() + ("\""@ + rest2)));
    assert(doc_json(cs) =~= "{"@ + ("\""@ + ("$schema"@ + ("\""@ + rest1))));
    lemma_strip_gt("{"@, "$schema"@, rest1);
    lemma_strip_gt(":"@, schema_ref(), rest2);
    lemma_strip_gt(","@, "colors"@, rest3);
    lemma_strip_glue(":["@, entries_json(cs) + "]}"@);
    lemma_strip_entries(cs);
    assert(spec_strip(doc_json(cs), false) =~= doc_json(cs));
}

/// A document text with the schema field is never one without it: they
/// differ at the character after the opening brace and quote.
proof fn lemma_doc_forms_differ(cs1: Seq<ColorV>, cs2: Seq<ColorV>)
    ensures
        doc_json(cs1) != doc_json_noschema(cs2),
{
    reveal_strlit("{\"$schema\":\"");
    reveal_strlit("{\"colors\":[");
    if doc_json(cs1) == doc_json_noschema(cs2) {
        assert(doc_json(cs1)[2] == "{\"$schema\":\""@[2]);
        assert(doc_json_noschema(cs2)[2] == "{\"colors\":["@[2]);
        assert(false);
    }
}

/// Write-then-read round trip: a document read back from a rendered palette
/// text holds exactly the written colors, and its schema reference is the
/// fixed value. The hypotheses are what `encode_colors` and `parse_colors`
/// together establish when the written text is read back.
pub proof fn lemma_write_read_roundtrip(
    written: Seq<ColorV>,
    got: Seq<ColorV>,
    got_schema: Option<Seq<char>>,
)
    requires
        wf_colors(written),
        wf_colors(got),
        (spec_strip(doc_json(written), false) == doc_json(got) && got_schema == Some(schema_ref()))
            || (spec_strip(doc_json(written), false) == doc_json_noschema(got)
            && got_schema is None),
    ensures
        got == written,
        got_schema == Some(schema_ref()),
{
    lemma_strip_doc(written);
    if spec_strip(doc_json(written), false) == doc_json_noschema(got) && got_schema is None {
        lemma_doc_forms_differ(written, got);
    }
    lemma_doc_json_injective(written, got);
}

} // verus!
