use vstd::prelude::*;
use crate::text::{
    chars_of, contains_chars, occurs_at, contains_spec, extend_chars, find_first, first_at, is_blank, lemma_first_at,
    split_chars, split_spec, str_eq, string_of, subvec, trimmed,
};

verus! {

/// What `Path::file_name` gives for a path written as `s`: its last
/// component, if it has one.
pub uninterp spec fn path_file_name(s: Seq<char>) -> Option<Seq<char>>;

/// Calls `Path::new(..).file_name()` and converts the component to a
/// string; the contract only names the result.
#[verifier::external_body]
fn file_name_of(target: &str) -> (r: Option<String>)
    ensures
        match r {
            Some(f) => path_file_name(target@) == Some(f@),
            None => path_file_name(target@) is None,
        },
{
    match std::path::Path::new(target).file_name() {
        Some(f) => Some(f.to_string_lossy().into_owned()),
        None => None,
    }
}

/// The HTML spelling of one character: `&`, `<`, `>` and `"` become
/// entities, anything else stays.
pub open spec fn escape_char(c: char) -> Seq<char> {
    if c == '&' {
        "&amp;"@
    } else if c == '<' {
        "&lt;"@
    } else if c == '>' {
        "&gt;"@
    } else if c == '"' {
        "&quot;"@
    } else {
        seq![c]
    }
}

/// `s` with the HTML special characters turned into entities.
pub open spec fn escape_spec(s: Seq<char>) -> Seq<char>
    decreases s.len(),
{
    if s.len() == 0 {
        Seq::empty()
    } else {
        escape_spec(s.drop_last()) + escape_char(s.last())
    }
}

fn escape_into(out: &mut Vec<char>, s: &Vec<char>)
    ensures
        final(out)@ == old(out)@ + escape_spec(s@),
{
    let amp = chars_of("&amp;");
    let lt = chars_of("&lt;");
    let gt = chars_of("&gt;");
    let quot = chars_of("&quot;");
    let mut k: usize = 0;
    while k < s.len()
        invariant
            k <= s@.len(),
            amp@ == "&amp;"@,
            lt@ == "&lt;"@,
            gt@ == "&gt;"@,
            quot@ == "&quot;"@,
            out@ == old(out)@ + escape_spec(s@.take(k as int)),
        decreases s@.len() - k,
    {
        let c = s[k];
        if c == '&' {
            extend_chars(out, &amp);
        } else if c == '<' {
            extend_chars(out, &lt);
        } else if c == '>' {
            extend_chars(out, &gt);
        } else if c == '"' {
            extend_chars(out, &quot);
        } else {
            out.push(c);
        }
        proof {
            assert(s@.take(k + 1).drop_last() =~= s@.take(k as int));
            assert(s@.take(k + 1).last() == c);
        }
        k = k + 1;
        assert(out@ =~= old(out)@ + escape_spec(s@.take(k as int)));
    }
    assert(s@.take(k as int) =~= s@);
}

/// Escapes the HTML special characters of `input`.
pub fn escape_html(input: &str) -> (r: String)
    ensures
        r@ == escape_spec(input@),
{
    let s = chars_of(input);
    let mut out: Vec<char> = Vec::new();
    escape_into(&mut out, &s);
    assert(out@ =~= escape_spec(input@));
    string_of(&out)
}

/// Whether `c` is one of the characters that escaping turns into an entity.
pub open spec fn is_html_special(c: char) -> bool {
    c == '&' || c == '<' || c == '>' || c == '"'
}

/// Whether `t` begins with one of the four entities that escaping writes.
pub open spec fn starts_with_entity(t: Seq<char>) -> bool {
    ||| (t.len() >= 5 && t.take(5) == "&amp;"@)
    ||| (t.len() >= 4 && t.take(4) == "&lt;"@)
    ||| (t.len() >= 4 && t.take(4) == "&gt;"@)
    ||| (t.len() >= 6 && t.take(6) == "&quot;"@)
}

/// Reads `t` left to right, turning each of the four entities back into
/// the character it stands for and keeping everything else.
pub open spec fn unescape_spec(t: Seq<char>) -> Seq<char>
    decreases t.len(),
{
    if t.len() == 0 {
        Seq::empty()
    } else if t.len() >= 5 && t.take(5) == "&amp;"@ {
        seq!['&'] + unescape_spec(t.skip(5))
    } else if t.len() >= 4 && t.take(4) == "&lt;"@ {
        seq!['<'] + unescape_spec(t.skip(4))
    } else if t.len() >= 4 && t.take(4) == "&gt;"@ {
        seq!['>'] + unescape_spec(t.skip(4))
    } else if t.len() >= 6 && t.take(6) == "&quot;"@ {
        seq!['"'] + unescape_spec(t.skip(6))
    } else {
        seq![t[0]] + unescape_spec(t.skip(1))
    }
}

proof fn lemma_escape_concat(a: Seq<char>, b: Seq<char>)
    ensures
        escape_spec(a + b) == escape_spec(a) + escape_spec(b),
    decreases b.len(),
{
    if b.len() == 0 {
        assert(a + b =~= a);
        assert(escape_spec(a) + escape_spec(b) =~= escape_spec(a));
    } else {
        lemma_escape_concat(a, b.drop_last());
        assert((a + b).drop_last() =~= a + b.drop_last());
        assert((a + b).last() == b.last());
        assert(escape_spec(a + b) =~= escape_spec(a) + escape_spec(b));
    }
}

proof fn lemma_escape_one(c: char)
    ensures
        escape_spec(seq![c]) == escape_char(c),
{
    let u = seq![c];
    assert(u.drop_last() =~= Seq::<char>::empty());
    assert(escape_spec(u.drop_last()) =~= Seq::<char>::empty());
    assert(u.last() == c);
    assert(escape_spec(u) == escape_spec(u.drop_last()) + escape_char(u.last()));
    assert(Seq::<char>::empty() + escape_char(c) =~= escape_char(c));
}

/// Escaping loses nothing: reading the entities back gives the original
/// text, so two different texts never escape to the same HTML.
pub proof fn unescape_undoes_escape(s: Seq<char>)
    ensures
        unescape_spec(escape_spec(s)) == s,
    decreases s.len(),
{
    reveal_strlit("&amp;");
    reveal_strlit("&lt;");
    reveal_strlit("&gt;");
    reveal_strlit("&quot;");
    if s.len() > 0 {
        let c = s[0];
        let rest = s.drop_first();
        assert(seq![c] + rest =~= s);
        lemma_escape_concat(seq![c], rest);
        lemma_escape_one(c);
        unescape_undoes_escape(rest);
        let e = escape_char(c);
        let t = escape_spec(s);
        assert(t == e + escape_spec(rest));
        assert(t.skip(e.len() as int) =~= escape_spec(rest));
        let amp = t.len() >= 5 && t.take(5) == "&amp;"@;
        let lt = t.len() >= 4 && t.take(4) == "&lt;"@;
        let gt = t.len() >= 4 && t.take(4) == "&gt;"@;
        let quot = t.len() >= 6 && t.take(6) == "&quot;"@;
        if c == '&' {
            assert(t.take(5) =~= "&amp;"@);
            assert(unescape_spec(t) == seq!['&'] + unescape_spec(t.skip(5)));
        } else {
            assert(t[0] == e[0]);
            if amp {
                assert(t.take(5)[0] == t[0]);
                assert(t.take(5)[1] == t[1]);
                assert(t[1] == e[1] || e.len() == 1);
                assert(false);
            }
            if c == '<' {
                assert(t.take(4) =~= "&lt;"@);
                assert(unescape_spec(t) == seq!['<'] + unescape_spec(t.skip(4)));
            } else {
                if lt {
                    assert(t.take(4)[0] == t[0]);
                    assert(t.take(4)[1] == t[1]);
                    assert(t[1] == e[1] || e.len() == 1);
                    assert(false);
                }
                if c == '>' {
                    assert(t.take(4) =~= "&gt;"@);
                    assert(unescape_spec(t) == seq!['>'] + unescape_spec(t.skip(4)));
                } else {
                    if gt {
                        assert(t.take(4)[0] == t[0]);
                        assert(t.take(4)[1] == t[1]);
                        assert(t[1] == e[1] || e.len() == 1);
                        assert(false);
                    }
                    if c == '"' {
                        assert(t.take(6) =~= "&quot;"@);
                        assert(unescape_spec(t) == seq!['"'] + unescape_spec(t.skip(6)));
                    } else {
                        if quot {
                            assert(t.take(6)[0] == t[0]);
                            assert(false);
                        }
                        assert(e =~= seq![c]);
                        assert(unescape_spec(t) == seq![t[0]] + unescape_spec(t.skip(1)));
                    }
                }
            }
        }
        assert(unescape_spec(t) =~= s);
    }
}

/// Different texts escape differently.
pub proof fn escape_is_injective(a: Seq<char>, b: Seq<char>)
    ensures
        escape_spec(a) == escape_spec(b) ==> a == b,
{
    unescape_undoes_escape(a);
    unescape_undoes_escape(b);
}

/// Escaped text holds no raw `<`, `>` or `"`, and every `&` in it begins
/// one of the four entities.
pub proof fn escape_leaves_no_markup(s: Seq<char>)
    ensures
        forall|i: int| 0 <= i < escape_spec(s).len() ==> !(#[trigger] escape_spec(s)[i] == '<'
            || escape_spec(s)[i] == '>' || escape_spec(s)[i] == '"'),
        forall|i: int| 0 <= i < escape_spec(s).len() && #[trigger] escape_spec(s)[i] == '&'
            ==> starts_with_entity(escape_spec(s).skip(i)),
    decreases s.len(),
{
    reveal_strlit("&amp;");
    reveal_strlit("&lt;");
    reveal_strlit("&gt;");
    reveal_strlit("&quot;");
    if s.len() > 0 {
        escape_leaves_no_markup(s.drop_last());
        let p = escape_spec(s.drop_last());
        let e = escape_char(s.last());
        let t = escape_spec(s);
        assert(t == p + e);
        assert forall|i: int| 0 <= i < t.len() implies !(#[trigger] t[i] == '<' || t[i] == '>' || t[i] == '"') by {
            if i < p.len() {
                assert(t[i] == p[i]);
            } else {
                assert(t[i] == e[i - p.len()]);
            }
        }
        assert forall|i: int| 0 <= i < t.len() && #[trigger] t[i] == '&' implies starts_with_entity(t.skip(i)) by {
            if i < p.len() {
                assert(t[i] == p[i]);
                let u = p.skip(i);
                assert(starts_with_entity(u));
                assert(t.skip(i) =~= u + e);
                if u.len() >= 5 {
                    assert(t.skip(i).take(5) =~= u.take(5));
                }
                if u.len() >= 4 {
                    assert(t.skip(i).take(4) =~= u.take(4));
                }
                if u.len() >= 6 {
                    assert(t.skip(i).take(6) =~= u.take(6));
                }
            } else {
                assert(t[i] == e[i - p.len()]);
                assert(i == p.len());
                assert(t.skip(i) =~= e);
                assert(e.take(e.len() as int) =~= e);
            }
        }
    }
}

/// Escaping leaves a text unchanged exactly when it holds none of `&`,
/// `<`, `>` and `"`.
pub proof fn escape_is_identity_iff(s: Seq<char>)
    ensures
        escape_spec(s) == s <==> forall|i: int| 0 <= i < s.len() ==> !is_html_special(#[trigger] s[i]),
    decreases s.len(),
{
    reveal_strlit("&amp;");
    reveal_strlit("&lt;");
    reveal_strlit("&gt;");
    reveal_strlit("&quot;");
    lemma_escape_len(s);
    if escape_spec(s) == s {
        assert forall|i: int| 0 <= i < s.len() implies !is_html_special(#[trigger] s[i]) by {
            if is_html_special(s[i]) {
                assert(exists|j: int| 0 <= j < s.len() && is_html_special(#[trigger] s[j]));
            }
        }
    }
    if s.len() > 0 {
        let c = s.last();
        if forall|i: int| 0 <= i < s.len() ==> !is_html_special(#[trigger] s[i]) {
            assert(!is_html_special(s[s.len() - 1]));
            assert forall|i: int| 0 <= i < s.drop_last().len() implies !is_html_special(#[trigger] s.drop_last()[i]) by {
                assert(s.drop_last()[i] == s[i]);
            }
            escape_is_identity_iff(s.drop_last());
            assert(escape_char(c) =~= seq![c]);
            assert(escape_spec(s) =~= s);
        }
    } else {
        assert(escape_spec(s) =~= s);
    }
}

proof fn lemma_escape_len(s: Seq<char>)
    ensures
        escape_spec(s).len() >= s.len(),
        (exists|i: int| 0 <= i < s.len() && is_html_special(#[trigger] s[i])) ==> escape_spec(s).len() > s.len(),
    decreases s.len(),
{
    reveal_strlit("&amp;");
    reveal_strlit("&lt;");
    reveal_strlit("&gt;");
    reveal_strlit("&quot;");
    if s.len() > 0 {
        lemma_escape_len(s.drop_last());
        if exists|i: int| 0 <= i < s.len() && is_html_special(#[trigger] s[i]) {
            let i = choose|i: int| 0 <= i < s.len() && is_html_special(#[trigger] s[i]);
            if i < s.len() - 1 {
                assert(is_html_special(s.drop_last()[i]));
            }
        }
    }
}

/// The value of attribute `attr` in `chunk`: the text between `attr="` and
/// the next `"`; empty when either is missing.
pub open spec fn extract_attr_spec(chunk: Seq<char>, attr: Seq<char>) -> Seq<char> {
    let pat = attr + seq!['=', '"'];
    match first_at(chunk, pat, 0) {
        Some(i) => {
            let rest = chunk.skip(i + pat.len());
            match first_at(rest, seq!['"'], 0) {
                Some(e) => rest.take(e),
                None => Seq::empty(),
            }
        },
        None => Seq::empty(),
    }
}

fn extract_attr_chars(chunk: &Vec<char>, attr: &Vec<char>) -> (r: Vec<char>)
    ensures
        r@ == extract_attr_spec(chunk@, attr@),
{
    let mut pat = attr.clone();
    pat.push('=');
    pat.push('"');
    assert(pat@ =~= attr@ + seq!['=', '"']);
    match find_first(chunk, &pat, 0) {
        Some(i) => {
            proof {
                lemma_first_at(chunk@, pat@, 0);
            }
            assert(chunk@.len() == chunk.len());
            let rest = subvec(chunk, i + pat.len(), chunk.len());
            assert(rest@ =~= chunk@.skip(i + pat@.len()));
            let quote = vec!['"'];
            assert(quote@ =~= seq!['"']);
            match find_first(&rest, &quote, 0) {
                Some(e) => {
                    proof {
                        lemma_first_at(rest@, quote@, 0);
                    }
                    let v = subvec(&rest, 0, e);
                    assert(v@ =~= rest@.take(e as int));
                    v
                },
                None => Vec::new(),
            }
        },
        None => Vec::new(),
    }
}

/// The value of attribute `attr_name` in `chunk`, or empty.
pub fn extract_attr(chunk: &str, attr_name: &str) -> (r: String)
    ensures
        r@ == extract_attr_spec(chunk@, attr_name@),
{
    let c = chars_of(chunk);
    let a = chars_of(attr_name);
    let v = extract_attr_chars(&c, &a);
    string_of(&v)
}


/// The pieces' images under `f`, one after another.
pub open spec fn concat_map(pieces: Seq<Seq<char>>, f: spec_fn(Seq<char>) -> Seq<char>) -> Seq<char>
    decreases pieces.len(),
{
    if pieces.len() == 0 {
        Seq::empty()
    } else {
        concat_map(pieces.drop_last(), f) + f(pieces.last())
    }
}

proof fn lemma_concat_map_step(pieces: Seq<Seq<char>>, f: spec_fn(Seq<char>) -> Seq<char>, k: int)
    requires
        0 <= k < pieces.len(),
    ensures
        concat_map(pieces.take(k + 1), f) == concat_map(pieces.take(k), f) + f(pieces[k]),
{
    assert(pieces.take(k + 1).drop_last() =~= pieces.take(k));
    assert(pieces.take(k + 1).last() == pieces[k]);
}

/// The text of a `<w:t` piece: what lies between the end of the tag and
/// `</w:t>`, escaped; nothing when either is missing.
pub open spec fn text_piece(piece: Seq<char>) -> Seq<char> {
    match first_at(piece, ">"@, 0) {
        Some(e) => {
            let content = piece.skip(e + 1);
            match first_at(content, "</w:t>"@, 0) {
                Some(c) => escape_spec(content.take(c)),
                None => Seq::empty(),
            }
        },
        None => Seq::empty(),
    }
}

/// `text_piece` as a function value.
pub open spec fn text_piece_fn() -> spec_fn(Seq<char>) -> Seq<char> {
    |p: Seq<char>| text_piece(p)
}

/// The text of a run: the texts of its `<w:t` pieces, one after another.
pub open spec fn run_text_spec(run: Seq<char>) -> Seq<char> {
    concat_map(split_spec(run, "<w:t"@), text_piece_fn())
}

/// A run as HTML: its text, wrapped in `<b>`, then `<i>`, then `<u>` as
/// the run is bold, italic, underlined; nothing for a blank run or one
/// without text.
pub open spec fn run_html_spec(run: Seq<char>) -> Seq<char> {
    if trimmed(run).len() == 0 {
        Seq::empty()
    } else {
        let t = run_text_spec(run);
        if t.len() == 0 {
            Seq::empty()
        } else {
            let bold = contains_spec(run, "<w:b/>"@) || contains_spec(run, "<w:b "@);
            let italic = contains_spec(run, "<w:i/>"@) || contains_spec(run, "<w:i "@);
            let under = contains_spec(run, "<w:u "@) || contains_spec(run, "<w:u/>"@);
            let t1 = if bold { "<b>"@ + t + "</b>"@ } else { t };
            let t2 = if italic { "<i>"@ + t1 + "</i>"@ } else { t1 };
            if under { "<u>"@ + t2 + "</u>"@ } else { t2 }
        }
    }
}

/// `run_html_spec` as a function value.
pub open spec fn run_html_fn() -> spec_fn(Seq<char>) -> Seq<char> {
    |r: Seq<char>| run_html_spec(r)
}

fn run_text(run: &Vec<char>) -> (r: Vec<char>)
    ensures
        r@ == run_text_spec(run@),
{
    let tag = chars_of("<w:t");
    let gt = chars_of(">");
    let close = chars_of("</w:t>");
    proof {
        reveal_strlit("<w:t");
    }
    let pieces = split_chars(run, &tag);
    let ghost pv = pieces@.map_values(|v: Vec<char>| v@);
    let mut out: Vec<char> = Vec::new();
    let mut k: usize = 0;
    while k < pieces.len()
        invariant
            pv == pieces@.map_values(|v: Vec<char>| v@),
            pv == split_spec(run@, "<w:t"@),
            gt@ == ">"@,
            close@ == "</w:t>"@,
            k <= pieces@.len(),
            out@ == concat_map(pv.take(k as int), text_piece_fn()),
        decreases pieces@.len() - k,
    {
        let piece = &pieces[k];
        let ghost before = out@;
        match find_first(piece, &gt, 0) {
            Some(e) => {
                proof {
                    lemma_first_at(piece@, gt@, 0);
                    reveal_strlit(">");
                }
                assert(piece@.len() == piece.len());
                let content = subvec(piece, e + 1, piece.len());
                assert(content@ =~= piece@.skip(e + 1));
                match find_first(&content, &close, 0) {
                    Some(c) => {
                        proof {
                            lemma_first_at(content@, close@, 0);
                        }
                        let inner = subvec(&content, 0, c);
                        assert(inner@ =~= content@.take(c as int));
                        escape_into(&mut out, &inner);
                    },
                    None => {},
                }
            },
            None => {},
        }
        proof {
            lemma_concat_map_step(pv, text_piece_fn(), k as int);
            assert(out@ =~= before + text_piece(pv[k as int]));
        }
        k = k + 1;
    }
    assert(pv.take(k as int) =~= pv);
    out
}

fn wrap(out: &mut Vec<char>, open: &str, close: &str)
    ensures
        final(out)@ == open@ + old(out)@ + close@,
{
    let mut r = chars_of(open);
    extend_chars(&mut r, out);
    let c = chars_of(close);
    extend_chars(&mut r, &c);
    *out = r;
}

fn run_html(run: &Vec<char>) -> (r: Vec<char>)
    ensures
        r@ == run_html_spec(run@),
{
    if is_blank(run) {
        return Vec::new();
    }
    let mut t = run_text(run);
    if t.len() == 0 {
        return Vec::new();
    }
    let bold = contains_chars(run, &chars_of("<w:b/>")) || contains_chars(run, &chars_of("<w:b "));
    let italic = contains_chars(run, &chars_of("<w:i/>")) || contains_chars(run, &chars_of("<w:i "));
    let under = contains_chars(run, &chars_of("<w:u ")) || contains_chars(run, &chars_of("<w:u/>"));
    if bold {
        wrap(&mut t, "<b>", "</b>");
    }
    if italic {
        wrap(&mut t, "<i>", "</i>");
    }
    if under {
        wrap(&mut t, "<u>", "</u>");
    }
    t
}

/// The relationships of a document as plain character sequences: each
/// entry an id and the target it names.
pub open spec fn rel_view(rels: Seq<(String, String)>) -> Seq<(Seq<char>, Seq<char>)> {
    rels.map_values(|e: (String, String)| (e.0@, e.1@))
}

/// The first position at or after `from` whose id is `id`.
pub open spec fn rel_pos(rels: Seq<(Seq<char>, Seq<char>)>, id: Seq<char>, from: int) -> Option<int>
    decreases rels.len() - from,
{
    if from < 0 || from >= rels.len() {
        None
    } else if rels[from].0 == id {
        Some(from)
    } else {
        rel_pos(rels, id, from + 1)
    }
}

/// `rels` with `id` bound to `target`: the entry of that id is replaced in
/// place, or the pair is added at the end.
pub open spec fn rel_insert(rels: Seq<(Seq<char>, Seq<char>)>, id: Seq<char>, target: Seq<char>) -> Seq<
    (Seq<char>, Seq<char>),
> {
    match rel_pos(rels, id, 0) {
        Some(i) => rels.update(i, (id, target)),
        None => rels.push((id, target)),
    }
}

/// No id occurs twice.
pub open spec fn rel_ids_distinct(rels: Seq<(Seq<char>, Seq<char>)>) -> bool {
    forall|i: int, j: int| 0 <= i < j < rels.len() ==> rels[i].0 != rels[j].0
}

/// The relationships read from the pieces of a relationships part, in
/// order: a piece with a non-empty `Id` and `Target` binds the one to the
/// other, a later binding of an id replacing an earlier one.
pub open spec fn rels_from_pieces(pieces: Seq<Seq<char>>) -> Seq<(Seq<char>, Seq<char>)>
    decreases pieces.len(),
{
    if pieces.len() == 0 {
        Seq::empty()
    } else {
        let acc = rels_from_pieces(pieces.drop_last());
        let id = extract_attr_spec(pieces.last(), "Id"@);
        let target = extract_attr_spec(pieces.last(), "Target"@);
        if id.len() > 0 && target.len() > 0 {
            rel_insert(acc, id, target)
        } else {
            acc
        }
    }
}

/// The relationships of `word/_rels/document.xml.rels`, read from its text.
pub open spec fn relationships_spec(rels_xml: Seq<char>) -> Seq<(Seq<char>, Seq<char>)> {
    rels_from_pieces(split_spec(rels_xml, "<Relationship "@))
}

proof fn lemma_rel_pos(rels: Seq<(Seq<char>, Seq<char>)>, id: Seq<char>, from: int)
    requires
        0 <= from,
    ensures
        match rel_pos(rels, id, from) {
            Some(i) => from <= i < rels.len() && rels[i].0 == id
                && forall|j: int| from <= j < i ==> rels[j].0 != id,
            None => forall|j: int| from <= j < rels.len() ==> rels[j].0 != id,
        },
    decreases rels.len() - from,
{
    if from < rels.len() && rels[from].0 != id {
        lemma_rel_pos(rels, id, from + 1);
    }
}

proof fn lemma_rel_insert_distinct(rels: Seq<(Seq<char>, Seq<char>)>, id: Seq<char>, target: Seq<char>)
    requires
        rel_ids_distinct(rels),
    ensures
        rel_ids_distinct(rel_insert(rels, id, target)),
{
    lemma_rel_pos(rels, id, 0);
}

/// Binds `id` to `target` in `rels`, as `rel_insert` says.
fn insert_rel(rels: &mut Vec<(String, String)>, id: String, target: String)
    ensures
        rel_view(final(rels)@) == rel_insert(rel_view(old(rels)@), id@, target@),
{
    let ghost v = rel_view(rels@);
    let mut k: usize = 0;
    while k < rels.len()
        invariant
            v == rel_view(rels@),
            rels@ == old(rels)@,
            k <= rels@.len(),
            rel_pos(v, id@, 0) == rel_pos(v, id@, k as int),
        decreases rels@.len() - k,
    {
        if str_eq(rels[k].0.as_str(), id.as_str()) {
            assert(v[k as int].0 == id@);
            assert(rel_pos(v, id@, k as int) == Some(k as int));
            rels.set(k, (id, target));
            assert(rel_view(rels@) =~= v.update(k as int, (id@, target@)));
            return;
        }
        assert(v[k as int].0 != id@);
        k = k + 1;
    }
    rels.push((id, target));
    assert(rel_view(rels@) =~= v.push((id@, target@)));
}

/// Reads the relationships of a document from the text of its
/// relationships part: for each `<Relationship ` element with a non-empty
/// `Id` and `Target`, the id is bound to the target, a later element
/// overriding an earlier one of the same id.
pub fn parse_relationships(rels_xml: &str) -> (r: Vec<(String, String)>)
    ensures
        rel_view(r@) == relationships_spec(rels_xml@),
        rel_ids_distinct(rel_view(r@)),
{
    let xml = chars_of(rels_xml);
    let pat = chars_of("<Relationship ");
    proof {
        reveal_strlit("<Relationship ");
    }
    let pieces = split_chars(&xml, &pat);
    let ghost pv = pieces@.map_values(|v: Vec<char>| v@);
    let mut out: Vec<(String, String)> = Vec::new();
    let mut k: usize = 0;
    assert(pv.take(0) =~= Seq::<Seq<char>>::empty());
    assert(rel_view(out@) =~= Seq::<(Seq<char>, Seq<char>)>::empty());
    while k < pieces.len()
        invariant
            pv == pieces@.map_values(|v: Vec<char>| v@),
            pv == split_spec(rels_xml@, "<Relationship "@),
            k <= pieces@.len(),
            rel_view(out@) == rels_from_pieces(pv.take(k as int)),
            rel_ids_distinct(rel_view(out@)),
        decreases pieces@.len() - k,
    {
        let piece = string_of(&pieces[k]);
        let id = extract_attr(piece.as_str(), "Id");
        let target = extract_attr(piece.as_str(), "Target");
        proof {
            assert(pv.take(k + 1).drop_last() =~= pv.take(k as int));
            assert(pv.take(k + 1).last() == pv[k as int]);
        }
        if !id.as_str().is_empty() && !target.as_str().is_empty() {
            proof {
                lemma_rel_insert_distinct(rel_view(out@), id@, target@);
            }
            insert_rel(&mut out, id, target);
        }
        k = k + 1;
    }
    assert(pv.take(k as int) =~= pv);
    out
}

/// The tag a paragraph is written with: a heading level its style names,
/// else `p`.
pub open spec fn heading_tag_spec(p: Seq<char>) -> Seq<char> {
    if contains_spec(p, "Heading1"@) || contains_spec(p, "heading 1"@) {
        "h1"@
    } else if contains_spec(p, "Heading2"@) || contains_spec(p, "heading 2"@) {
        "h2"@
    } else if contains_spec(p, "Heading3"@) || contains_spec(p, "heading 3"@) {
        "h3"@
    } else {
        "p"@
    }
}

/// The `<img>` element for an image file name; nothing without a name.
pub open spec fn image_tag_spec(file_name: Option<Seq<char>>) -> Seq<char> {
    match file_name {
        Some(f) => "<img src=\""@ + f + "\" />"@,
        None => Seq::empty(),
    }
}

/// The `<img>` element for the file name of an image target, as
/// `image_tag_spec` says.
pub fn image_tag(file_name: Option<&str>) -> (r: String)
    ensures
        r@ == image_tag_spec(match file_name {
            Some(f) => Some(f@),
            None => None,
        }),
{
    match file_name {
        Some(f) => {
            let fc = chars_of(f);
            let tag = framed("<img src=\"", &fc, "\" />");
            string_of(&tag)
        },
        None => String::new(),
    }
}

/// The image a relationship contributes to a paragraph that refers to its
/// id: an `<img>` of the target's file name.
pub open spec fn image_html(p: Seq<char>, e: (Seq<char>, Seq<char>)) -> Seq<char> {
    if contains_spec(p, "r:embed=\""@ + e.0 + "\""@) || contains_spec(p, "r:id=\""@ + e.0 + "\""@) {
        image_tag_spec(path_file_name(e.1))
    } else {
        Seq::empty()
    }
}

/// The images of a paragraph, in the order of the relationships.
pub open spec fn images_spec(p: Seq<char>, rels: Seq<(Seq<char>, Seq<char>)>) -> Seq<char>
    decreases rels.len(),
{
    if rels.len() == 0 {
        Seq::empty()
    } else {
        images_spec(p, rels.drop_last()) + image_html(p, rels.last())
    }
}

/// A paragraph's images, looked for only where it holds a drawing or an
/// embedding.
pub open spec fn paragraph_images(p: Seq<char>, rels: Seq<(Seq<char>, Seq<char>)>) -> Seq<char> {
    if contains_spec(p, "<w:drawing"@) || contains_spec(p, "r:embed="@) {
        images_spec(p, rels)
    } else {
        Seq::empty()
    }
}

/// A paragraph as HTML: its images and runs inside its tag, on a line of
/// its own; nothing for a blank paragraph or one whose content is blank.
pub open spec fn paragraph_html_spec(p: Seq<char>, rels: Seq<(Seq<char>, Seq<char>)>) -> Seq<char> {
    if trimmed(p).len() == 0 {
        Seq::empty()
    } else {
        let content = paragraph_images(p, rels) + concat_map(split_spec(p, "<w:r"@), run_html_fn());
        if trimmed(content).len() == 0 {
            Seq::empty()
        } else {
            let tag = heading_tag_spec(p);
            "<"@ + tag + ">"@ + content + "</"@ + tag + ">\n"@
        }
    }
}

/// The heading level of a paragraph follows the style it names, Word's
/// style ids (`Heading1`..`Heading3`) or names (`heading 1`..`heading 3`),
/// the first level named winning; any other paragraph is body text. A
/// paragraph that is shown at all is wrapped in the tag of its level.
pub proof fn heading_levels_follow_styles(p: Seq<char>, rels: Seq<(Seq<char>, Seq<char>)>)
    ensures
        contains_spec(p, "Heading1"@) || contains_spec(p, "heading 1"@) ==> heading_tag_spec(p) == "h1"@,
        !contains_spec(p, "Heading1"@) && !contains_spec(p, "heading 1"@)
            && (contains_spec(p, "Heading2"@) || contains_spec(p, "heading 2"@)) ==> heading_tag_spec(p) == "h2"@,
        !contains_spec(p, "Heading1"@) && !contains_spec(p, "heading 1"@)
            && !contains_spec(p, "Heading2"@) && !contains_spec(p, "heading 2"@)
            && (contains_spec(p, "Heading3"@) || contains_spec(p, "heading 3"@)) ==> heading_tag_spec(p) == "h3"@,
        !contains_spec(p, "Heading1"@) && !contains_spec(p, "heading 1"@)
            && !contains_spec(p, "Heading2"@) && !contains_spec(p, "heading 2"@)
            && !contains_spec(p, "Heading3"@) && !contains_spec(p, "heading 3"@) ==> heading_tag_spec(p) == "p"@,
        paragraph_html_spec(p, rels).len() == 0 || exists|c: Seq<char>| paragraph_html_spec(p, rels)
            == "<"@ + heading_tag_spec(p) + ">"@ + c + "</"@ + heading_tag_spec(p) + ">\n"@,
{
    if paragraph_html_spec(p, rels).len() != 0 {
        let c = paragraph_images(p, rels) + concat_map(split_spec(p, "<w:r"@), run_html_fn());
        assert(paragraph_html_spec(p, rels) == "<"@ + heading_tag_spec(p) + ">"@ + c + "</"@ + heading_tag_spec(p) + ">\n"@);
    }
}

/// `paragraph_html_spec` under `rels`, as a function value.
pub open spec fn paragraph_fn(rels: Seq<(Seq<char>, Seq<char>)>) -> spec_fn(Seq<char>) -> Seq<char> {
    |q: Seq<char>| paragraph_html_spec(q, rels)
}

/// The body HTML of a document: its `<w:p` pieces as paragraphs, one after
/// another.
pub open spec fn docx_html_spec(xml: Seq<char>, rels: Seq<(Seq<char>, Seq<char>)>) -> Seq<char> {
    concat_map(split_spec(xml, "<w:p"@), paragraph_fn(rels))
}

fn heading_tag(p: &Vec<char>) -> (r: &'static str)
    ensures
        r@ == heading_tag_spec(p@),
        contains_spec(p@, "Heading2"@) && !contains_spec(p@, "Heading1"@) && !contains_spec(p@, "heading 1"@)
            ==> r@ == "h2"@,
{
    if contains_chars(p, &chars_of("Heading1")) || contains_chars(p, &chars_of("heading 1")) {
        "h1"
    } else if contains_chars(p, &chars_of("Heading2")) || contains_chars(p, &chars_of("heading 2")) {
        "h2"
    } else if contains_chars(p, &chars_of("Heading3")) || contains_chars(p, &chars_of("heading 3")) {
        "h3"
    } else {
        "p"
    }
}

/// `open`, then `middle`, then `close`.
fn framed(open: &str, middle: &Vec<char>, close: &str) -> (r: Vec<char>)
    ensures
        r@ == open@ + middle@ + close@,
{
    let mut r = chars_of(open);
    extend_chars(&mut r, middle);
    let c = chars_of(close);
    extend_chars(&mut r, &c);
    r
}

fn images(p: &Vec<char>, rels: &Vec<(String, String)>) -> (r: Vec<char>)
    ensures
        r@ == images_spec(p@, rel_view(rels@)),
{
    let ghost rv = rel_view(rels@);
    let mut out: Vec<char> = Vec::new();
    let mut k: usize = 0;
    assert(rv.take(0) =~= Seq::<(Seq<char>, Seq<char>)>::empty());
    while k < rels.len()
        invariant
            rv == rel_view(rels@),
            k <= rels@.len(),
            out@ == images_spec(p@, rv.take(k as int)),
        decreases rels@.len() - k,
    {
        let id = chars_of(rels[k].0.as_str());
        let embed = framed("r:embed=\"", &id, "\"");
        let by_id = framed("r:id=\"", &id, "\"");
        let ghost before = out@;
        if contains_chars(p, &embed) || contains_chars(p, &by_id) {
            let name = file_name_of(rels[k].1.as_str());
            let tag = match &name {
                Some(f) => image_tag(Some(f.as_str())),
                None => image_tag(None),
            };
            extend_chars(&mut out, &chars_of(tag.as_str()));
        }
        proof {
            assert(rv.take(k + 1).drop_last() =~= rv.take(k as int));
            assert(rv.take(k + 1).last() == rv[k as int]);
            assert(out@ =~= before + image_html(p@, rv[k as int]));
        }
        k = k + 1;
    }
    assert(rv.take(k as int) =~= rv);
    out
}

fn paragraph_html(p: &Vec<char>, rels: &Vec<(String, String)>) -> (r: Vec<char>)
    ensures
        r@ == paragraph_html_spec(p@, rel_view(rels@)),
{
    if is_blank(p) {
        return Vec::new();
    }
    let mut content: Vec<char> = if contains_chars(p, &chars_of("<w:drawing")) || contains_chars(p, &chars_of("r:embed=")) {
        images(p, rels)
    } else {
        Vec::new()
    };
    let ghost imgs = content@;
    let tag_r = chars_of("<w:r");
    proof {
        reveal_strlit("<w:r");
    }
    let runs = split_chars(p, &tag_r);
    let ghost rv = runs@.map_values(|v: Vec<char>| v@);
    let mut k: usize = 0;
    assert(rv.take(0) =~= Seq::<Seq<char>>::empty());
    assert(content@ =~= imgs + concat_map(rv.take(0), run_html_fn()));
    while k < runs.len()
        invariant
            rv == runs@.map_values(|v: Vec<char>| v@),
            rv == split_spec(p@, "<w:r"@),
            k <= runs@.len(),
            content@ == imgs + concat_map(rv.take(k as int), run_html_fn()),
        decreases runs@.len() - k,
    {
        let h = run_html(&runs[k]);
        extend_chars(&mut content, &h);
        proof {
            lemma_concat_map_step(rv, run_html_fn(), k as int);
        }
        k = k + 1;
        assert(content@ =~= imgs + concat_map(rv.take(k as int), run_html_fn()));
    }
    assert(rv.take(k as int) =~= rv);
    if is_blank(&content) {
        return Vec::new();
    }
    let tag = heading_tag(p);
    let mut out = chars_of("<");
    extend_chars(&mut out, &chars_of(tag));
    extend_chars(&mut out, &chars_of(">"));
    extend_chars(&mut out, &content);
    extend_chars(&mut out, &chars_of("</"));
    extend_chars(&mut out, &chars_of(tag));
    extend_chars(&mut out, &chars_of(">\n"));
    out
}

/// Turns the XML of `word/document.xml` into HTML: each paragraph with its
/// heading level, bold, italic and underlined runs, text escaped, and the
/// images its relationships refer to.
pub fn parse_docx_xml_to_html(xml: &str, rels: &Vec<(String, String)>) -> (r: String)
    ensures
        r@ == docx_html_spec(xml@, rel_view(rels@)),
{
    let x = chars_of(xml);
    let tag_p = chars_of("<w:p");
    proof {
        reveal_strlit("<w:p");
    }
    let paras = split_chars(&x, &tag_p);
    let ghost pv = paras@.map_values(|v: Vec<char>| v@);
    let ghost f = paragraph_fn(rel_view(rels@));
    let mut out: Vec<char> = Vec::new();
    let mut k: usize = 0;
    assert(pv.take(0) =~= Seq::<Seq<char>>::empty());
    while k < paras.len()
        invariant
            pv == paras@.map_values(|v: Vec<char>| v@),
            pv == split_spec(xml@, "<w:p"@),
            f == paragraph_fn(rel_view(rels@)),
            k <= paras@.len(),
            out@ == concat_map(pv.take(k as int), f),
        decreases paras@.len() - k,
    {
        let h = paragraph_html(&paras[k], rels);
        extend_chars(&mut out, &h);
        proof {
            lemma_concat_map_step(pv, f, k as int);
        }
        k = k + 1;
    }
    assert(pv.take(k as int) =~= pv);
    string_of(&out)
}

/// The page that a converted document is shown in, up to its body.
pub const DOCX_PAGE_HEAD: &'static str = r#"<!DOCTYPE html>
<html>
<head>
  <meta charset="utf-8">
  <style>
    body {
      font-family: 'Noto Sans', 'Arial', sans-serif;
      font-size: 13pt;
      line-height: 1.6;
      color: #1a1a1e;
      background-color: #ffffff;
      padding: 40px;
      max-width: 750px;
      margin: 0 auto;
    }
    h1 { font-size: 22pt; color: #1e2b48; margin-top: 1.2em; margin-bottom: 0.5em; border-bottom: 2px solid #e0e4ec; padding-bottom: 6px; }
    h2 { font-size: 17pt; color: #2a3c66; margin-top: 1.1em; margin-bottom: 0.4em; }
    h3 { font-size: 14pt; color: #384e7a; margin-top: 1.0em; margin-bottom: 0.3em; }
    p { margin-top: 0; margin-bottom: 1.0em; text-align: justify; }
    b, strong { font-weight: bold; color: #000000; }
    i, em { font-style: italic; }
    u { text-decoration: underline; }
    ul, ol { margin-top: 0; margin-bottom: 1em; padding-left: 24px; }
    li { margin-bottom: 0.3em; }
    img { max-width: 100%; height: auto; display: block; margin: 1.2em auto; border-radius: 4px; filter: none !important; }
    table { border-collapse: collapse; width: 100%; margin: 1.2em 0; }
    td, th { border: 1px solid #d0d4dc; padding: 8px 12px; text-align: left; }
    th { background-color: #f0f3f8; font-weight: bold; }
  </style>
</head>
<body>
  "#;

/// The end of the page, after the body.
pub const DOCX_PAGE_TAIL: &'static str = "\n</body>\n</html>";

/// What stands in for the body of a document with no text.
pub const EMPTY_DOCX_BODY: &'static str = "<p><em>Empty Word Document</em></p>";

/// The body to show: the converted body, with a note appended where it is
/// blank.
pub fn body_or_placeholder(body: String) -> (r: String)
    ensures
        r@ == (if trimmed(body@).len() == 0 { body@ + EMPTY_DOCX_BODY@ } else { body@ }),
{
    let b = chars_of(body.as_str());
    if is_blank(&b) {
        let mut v = b;
        extend_chars(&mut v, &chars_of(EMPTY_DOCX_BODY));
        string_of(&v)
    } else {
        body
    }
}

/// The whole HTML page for a converted body: the styled head, the body,
/// and the closing tags.
pub fn docx_page_html(body: &str) -> (r: String)
    ensures
        r@ == DOCX_PAGE_HEAD@ + body@ + DOCX_PAGE_TAIL@,
{
    let mut v = chars_of(DOCX_PAGE_HEAD);
    extend_chars(&mut v, &chars_of(body));
    extend_chars(&mut v, &chars_of(DOCX_PAGE_TAIL));
    string_of(&v)
}

/// The file name a member of a DOCX archive is extracted under: members
/// under `word/media/` keep their last path component; others are not
/// extracted.
pub fn media_file_name(name: &str) -> (r: Option<String>)
    ensures
        occurs_at(name@, "word/media/"@, 0) ==> match r {
            Some(f) => path_file_name(name@) == Some(f@),
            None => path_file_name(name@) is None,
        },
        !occurs_at(name@, "word/media/"@, 0) ==> r is None,
{
    let n = chars_of(name);
    let prefix = chars_of("word/media/");
    match find_first(&n, &prefix, 0) {
        Some(i) => {
            proof {
                lemma_first_at(n@, prefix@, 0);
            }
            if i == 0 {
                file_name_of(name)
            } else {
                None
            }
        },
        None => {
            proof {
                lemma_first_at(n@, prefix@, 0);
            }
            None
        },
    }
}

/// What `zip::ZipArchive::new` reports for an archive whose bytes are
/// `archive`: nothing when it opens, else its error's message.
pub uninterp spec fn zip_open_error(archive: Seq<u8>) -> Option<Seq<char>>;

/// What reading the member called `name` gives (`ZipArchive::by_name`,
/// then `read_to_end`): its bytes, or nothing when there is no such member
/// or it cannot be read.
pub uninterp spec fn zip_entry(archive: Seq<u8>, name: Seq<char>) -> Option<Seq<u8>>;

/// The members of an archive in index order (`ZipArchive::len` and
/// `ZipArchive::by_index`): each member's name, or nothing for a member
/// that cannot be opened.
pub uninterp spec fn zip_entry_names(archive: Seq<u8>) -> Seq<Option<Seq<char>>>;

/// The bytes read from member `index` (`ZipArchive::by_index`, then
/// `read_to_end`), up to the first read error.
pub uninterp spec fn zip_entry_data(archive: Seq<u8>, index: int) -> Seq<u8>;

/// What `String::from_utf8_lossy` makes of `bytes`.
pub uninterp spec fn utf8_lossy(bytes: Seq<u8>) -> Seq<char>;

/// Whether `archive` opens as a zip archive.
pub open spec fn zip_valid(archive: Seq<u8>) -> bool {
    zip_open_error(archive) is None
}

/// Calls `zip::ZipArchive::new` on the bytes; the contract ties the
/// outcome and the error's message to the name `zip_open_error`.
#[verifier::external_body]
fn open_zip(archive: &[u8]) -> (r: Result<(), String>)
    ensures
        match r {
            Ok(_) => zip_open_error(archive@) is None,
            Err(e) => zip_open_error(archive@) == Some(e@),
        },
{
    match zip::ZipArchive::new(std::io::Cursor::new(archive)) {
        Ok(_) => Ok(()),
        Err(e) => Err(e.to_string()),
    }
}

/// Calls `ZipArchive::by_name` and `read_to_end` on an archive that opens;
/// the contract ties the result to the name `zip_entry`.
#[verifier::external_body]
fn zip_read_entry(archive: &[u8], name: &str) -> (r: Option<Vec<u8>>)
    requires
        zip_valid(archive@),
    ensures
        match r {
            Some(v) => zip_entry(archive@, name@) == Some(v@),
            None => zip_entry(archive@, name@) is None,
        },
{
    let mut z = zip::ZipArchive::new(std::io::Cursor::new(archive)).ok()?;
    let mut f = z.by_name(name).ok()?;
    let mut v = Vec::new();
    std::io::Read::read_to_end(&mut f, &mut v).ok()?;
    Some(v)
}

/// Calls `ZipArchive::len`, and `ZipArchive::by_index` and `ZipFile::name`
/// for each member, on an archive that opens; the contract ties the
/// result to the name `zip_entry_names`.
#[verifier::external_body]
fn zip_names(archive: &[u8]) -> (r: Vec<Option<String>>)
    requires
        zip_valid(archive@),
    ensures
        r@.len() == zip_entry_names(archive@).len(),
        forall|i: int| 0 <= i < r@.len() ==> match #[trigger] r@[i] {
            Some(n) => zip_entry_names(archive@)[i] == Some(n@),
            None => zip_entry_names(archive@)[i] is None,
        },
{
    let mut r = Vec::new();
    if let Ok(mut z) = zip::ZipArchive::new(std::io::Cursor::new(archive)) {
        for i in 0..z.len() {
            r.push(z.by_index(i).ok().map(|f| f.name().to_string()));
        }
    }
    r
}

/// Calls `ZipArchive::by_index` and `read_to_end` on a member that opens;
/// the contract ties the bytes read to the name `zip_entry_data`.
#[verifier::external_body]
fn zip_read_at(archive: &[u8], index: usize) -> (r: Vec<u8>)
    requires
        zip_valid(archive@),
        index < zip_entry_names(archive@).len(),
        zip_entry_names(archive@)[index as int] is Some,
    ensures
        r@ == zip_entry_data(archive@, index as int),
{
    let mut v = Vec::new();
    if let Ok(mut z) = zip::ZipArchive::new(std::io::Cursor::new(archive)) {
        if let Ok(mut f) = z.by_index(index) {
            let _ = std::io::Read::read_to_end(&mut f, &mut v);
        }
    }
    v
}

/// Calls `String::from_utf8_lossy`; the contract names the result.
#[verifier::external_body]
fn decode_lossy(bytes: &[u8]) -> (r: String)
    ensures
        r@ == utf8_lossy(bytes@),
{
    String::from_utf8_lossy(bytes).into_owned()
}

/// The text of member `name`, decoded leniently; empty when the member is
/// missing or unreadable.
pub open spec fn entry_text(archive: Seq<u8>, name: Seq<char>) -> Seq<char> {
    match zip_entry(archive, name) {
        Some(b) => utf8_lossy(b),
        None => Seq::empty(),
    }
}

/// The body shown for a converted body: the body, with the placeholder
/// appended where it is blank.
pub open spec fn placeholder_spec(body: Seq<char>) -> Seq<char> {
    if trimmed(body).len() == 0 { body + EMPTY_DOCX_BODY@ } else { body }
}

/// The page a Word archive is shown as.
pub open spec fn docx_page_spec(archive: Seq<u8>) -> Seq<char> {
    DOCX_PAGE_HEAD@ + placeholder_spec(docx_html_spec(
        entry_text(archive, "word/document.xml"@),
        relationships_spec(entry_text(archive, "word/_rels/document.xml.rels"@)),
    )) + DOCX_PAGE_TAIL@
}

fn read_entry_text(archive: &[u8], name: &str) -> (r: String)
    requires
        zip_valid(archive@),
    ensures
        r@ == entry_text(archive@, name@),
{
    match zip_read_entry(archive, name) {
        Some(b) => decode_lossy(b.as_slice()),
        None => String::new(),
    }
}

/// Converts a Word archive into the HTML page it is shown as: the body of
/// `word/document.xml`, with the images its relationships name, in the
/// styled page. Fails with the archive's error when it does not open.
pub fn docx_page_from_archive(archive: &[u8]) -> (r: Result<String, String>)
    ensures
        r is Ok <==> zip_valid(archive@),
        r matches Err(e) ==> zip_open_error(archive@) == Some(e@),
        r matches Ok(html) ==> html@ == docx_page_spec(archive@),
{
    match open_zip(archive) {
        Err(e) => Err(e),
        Ok(_) => {
            let rels_xml = read_entry_text(archive, "word/_rels/document.xml.rels");
            let rels = parse_relationships(rels_xml.as_str());
            let xml = read_entry_text(archive, "word/document.xml");
            let body = parse_docx_xml_to_html(xml.as_str(), &rels);
            let page = docx_page_html(body_or_placeholder(body).as_str());
            Ok(page)
        },
    }
}

/// The file a member is extracted under: the last path component of a
/// member under `word/media/`, none for other members.
pub open spec fn media_file_spec(name: Seq<char>) -> Option<Seq<char>> {
    if occurs_at(name, "word/media/"@, 0) { path_file_name(name) } else { None }
}

/// The media files of the first `n` members, in index order: for each
/// member that opens and lies under `word/media/`, the file name it is
/// extracted under and its bytes.
pub open spec fn media_entries_spec(archive: Seq<u8>, n: nat) -> Seq<(Seq<char>, Seq<u8>)>
    decreases n,
{
    if n == 0 {
        Seq::empty()
    } else {
        let earlier = media_entries_spec(archive, (n - 1) as nat);
        match zip_entry_names(archive)[n - 1] {
            Some(name) => match media_file_spec(name) {
                Some(f) => earlier.push((f, zip_entry_data(archive, n - 1))),
                None => earlier,
            },
            None => earlier,
        }
    }
}

/// The media files of a Word archive, to be written out beside its page.
/// Fails with the archive's error when it does not open.
pub fn media_entries(archive: &[u8]) -> (r: Result<Vec<(String, Vec<u8>)>, String>)
    ensures
        r is Ok <==> zip_valid(archive@),
        r matches Err(e) ==> zip_open_error(archive@) == Some(e@),
        r matches Ok(v) ==> {
            let want = media_entries_spec(archive@, zip_entry_names(archive@).len());
            &&& v@.len() == want.len()
            &&& forall|i: int| 0 <= i < v@.len() ==> (#[trigger] v@[i]).0@ == want[i].0 && v@[i].1@ == want[i].1
        },
{
    match open_zip(archive) {
        Err(e) => Err(e),
        Ok(_) => {
            let names = zip_names(archive);
            let mut out: Vec<(String, Vec<u8>)> = Vec::new();
            let mut i: usize = 0;
            while i < names.len()
                invariant
                    zip_valid(archive@),
                    names@.len() == zip_entry_names(archive@).len(),
                    forall|j: int| 0 <= j < names@.len() ==> match #[trigger] names@[j] {
                        Some(n) => zip_entry_names(archive@)[j] == Some(n@),
                        None => zip_entry_names(archive@)[j] is None,
                    },
                    i <= names@.len(),
                    out@.len() == media_entries_spec(archive@, i as nat).len(),
                    forall|j: int| 0 <= j < out@.len() ==> (#[trigger] out@[j]).0@ == media_entries_spec(archive@, i as nat)[j].0
                        && out@[j].1@ == media_entries_spec(archive@, i as nat)[j].1,
                decreases names@.len() - i,
            {
                match &names[i] {
                    Some(name) => {
                        match media_file_name(name.as_str()) {
                            Some(f) => {
                                let data = zip_read_at(archive, i);
                                out.push((f, data));
                            },
                            None => {},
                        }
                    },
                    None => {},
                }
                i = i + 1;
            }
            Ok(out)
        },
    }
}

} // verus!
