//! BibTeX entries: the citation key, LaTeX escaping, and the field list.
use vstd::prelude::*;
use vstd::string::StringExecFns;
use crate::keys::{
    family_key, family_key_chars, first_title_keyword, first_title_keyword_chars, key_part,
    key_part_chars, all_key_chars, ascii_key_of, is_key_char, lemma_ascii_lower_key_chars,
    lemma_first_title_keyword_alnum, lemma_key_part_alnum,
};
use crate::metadata::{Author, AuthorView, RecordView, WorkRecord, opt_text};
use crate::numbers::{decimal, decimal_i32, lemma_nat_decimal_value, nat_decimal};
use crate::text::{
    all_ascii, all_ascii_alnum, append_chars, ascii_lower_seq, chars_of, lowercase_str, push_char,
    string_of,
};
use crate::words::{Separator, join, join_chars, law_trim_idempotent, trim, trim_str, view_chars, words};

verus! {

// ------------------------------------------------------------------
// LaTeX escaping
// ------------------------------------------------------------------

/// The LaTeX text written for one char: the TeX specials are escaped and
/// the accented Latin letters are written with accent commands.
pub open spec fn escape_char(c: char) -> Seq<char> {
    match c {
        '\\' => "\\textbackslash{}"@,
        '{' => "\\{"@,
        '}' => "\\}"@,
        '&' => "\\&"@,
        '%' => "\\%"@,
        '$' => "\\$"@,
        '#' => "\\#"@,
        '_' => "\\_"@,
        '~' => "\\~{}"@,
        '^' => "\\^{}"@,
        'à' => "\\`{a}"@,
        'á' => "\\'{a}"@,
        'â' => "\\^{a}"@,
        'ä' => "\\\"{a}"@,
        'ã' => "\\~{a}"@,
        'å' => "\\r{a}"@,
        'æ' => "\\ae{}"@,
        'ç' => "\\c{c}"@,
        'è' => "\\`{e}"@,
        'é' => "\\'{e}"@,
        'ê' => "\\^{e}"@,
        'ë' => "\\\"{e}"@,
        'ì' => "\\`{i}"@,
        'í' => "\\'{i}"@,
        'î' => "\\^{i}"@,
        'ï' => "\\\"{i}"@,
        'ñ' => "\\~{n}"@,
        'ò' => "\\`{o}"@,
        'ó' => "\\'{o}"@,
        'ô' => "\\^{o}"@,
        'ö' => "\\\"{o}"@,
        'õ' => "\\~{o}"@,
        'ø' => "\\o{}"@,
        'ù' => "\\`{u}"@,
        'ú' => "\\'{u}"@,
        'û' => "\\^{u}"@,
        'ü' => "\\\"{u}"@,
        'ý' => "\\'{y}"@,
        'ÿ' => "\\\"{y}"@,
        'À' => "\\`{A}"@,
        'Á' => "\\'{A}"@,
        'Â' => "\\^{A}"@,
        'Ä' => "\\\"{A}"@,
        'Ã' => "\\~{A}"@,
        'Å' => "\\r{A}"@,
        'Æ' => "\\AE{}"@,
        'Ç' => "\\c{C}"@,
        'È' => "\\`{E}"@,
        'É' => "\\'{E}"@,
        'Ê' => "\\^{E}"@,
        'Ë' => "\\\"{E}"@,
        'Ì' => "\\`{I}"@,
        'Í' => "\\'{I}"@,
        'Î' => "\\^{I}"@,
        'Ï' => "\\\"{I}"@,
        'Ñ' => "\\~{N}"@,
        'Ò' => "\\`{O}"@,
        'Ó' => "\\'{O}"@,
        'Ô' => "\\^{O}"@,
        'Ö' => "\\\"{O}"@,
        'Õ' => "\\~{O}"@,
        'Ø' => "\\O{}"@,
        'Ù' => "\\`{U}"@,
        'Ú' => "\\'{U}"@,
        'Û' => "\\^{U}"@,
        'Ü' => "\\\"{U}"@,
        'Ý' => "\\'{Y}"@,
        _ => seq![c],
    }
}

pub open spec fn escape_latex_of(s: Seq<char>) -> Seq<char>
    decreases s.len(),
{
    if s.len() == 0 {
        s
    } else {
        escape_latex_of(s.drop_last()) + escape_char(s.last())
    }
}

/// Escaping text piece by piece is escaping it whole.
pub proof fn law_escape_concat(a: Seq<char>, b: Seq<char>)
    ensures
        escape_latex_of(a + b) == escape_latex_of(a) + escape_latex_of(b),
    decreases b.len(),
{
    if b.len() == 0 {
        assert(a + b =~= a);
        assert(escape_latex_of(a) + escape_latex_of(b) =~= escape_latex_of(a));
    } else {
        law_escape_concat(a, b.drop_last());
        assert((a + b).drop_last() =~= a + b.drop_last());
        assert((a + b).last() == b.last());
        assert(escape_latex_of(a) + (escape_latex_of(b.drop_last()) + escape_char(b.last()))
            =~= escape_latex_of(a) + escape_latex_of(b.drop_last()) + escape_char(b.last()));
    }
}

/// Text in which every char is written as itself (no TeX special, no
/// accented letter of the table) is left unchanged by escaping.
pub proof fn law_escape_plain_text(s: Seq<char>)
    requires
        forall|i: int| 0 <= i < s.len() ==> escape_char(#[trigger] s[i]) == seq![s[i]],
    ensures
        escape_latex_of(s) == s,
    decreases s.len(),
{
    if s.len() > 0 {
        assert forall|i: int| 0 <= i < s.drop_last().len() implies escape_char(
            #[trigger] s.drop_last()[i],
        ) == seq![s.drop_last()[i]] by {
            assert(s.drop_last()[i] == s[i]);
        }
        law_escape_plain_text(s.drop_last());
        assert(escape_char(s[s.len() - 1]) == seq![s.last()]);
        assert(s.drop_last() + seq![s.last()] =~= s);
    }
}

fn push_escaped(out: &mut String, c: char)
    ensures
        final(out)@ == old(out)@ + escape_char(c),
{
    match c {
        '\\' => out.append("\\textbackslash{}"),
        '{' => out.append("\\{"),
        '}' => out.append("\\}"),
        '&' => out.append("\\&"),
        '%' => out.append("\\%"),
        '$' => out.append("\\$"),
        '#' => out.append("\\#"),
        '_' => out.append("\\_"),
        '~' => out.append("\\~{}"),
        '^' => out.append("\\^{}"),
        'à' => out.append("\\`{a}"),
        'á' => out.append("\\'{a}"),
        'â' => out.append("\\^{a}"),
        'ä' => out.append("\\\"{a}"),
        'ã' => out.append("\\~{a}"),
        'å' => out.append("\\r{a}"),
        'æ' => out.append("\\ae{}"),
        'ç' => out.append("\\c{c}"),
        'è' => out.append("\\`{e}"),
        'é' => out.append("\\'{e}"),
        'ê' => out.append("\\^{e}"),
        'ë' => out.append("\\\"{e}"),
        'ì' => out.append("\\`{i}"),
        'í' => out.append("\\'{i}"),
        'î' => out.append("\\^{i}"),
        'ï' => out.append("\\\"{i}"),
        'ñ' => out.append("\\~{n}"),
        'ò' => out.append("\\`{o}"),
        'ó' => out.append("\\'{o}"),
        'ô' => out.append("\\^{o}"),
        'ö' => out.append("\\\"{o}"),
        'õ' => out.append("\\~{o}"),
        'ø' => out.append("\\o{}"),
        'ù' => out.append("\\`{u}"),
        'ú' => out.append("\\'{u}"),
        'û' => out.append("\\^{u}"),
        'ü' => out.append("\\\"{u}"),
        'ý' => out.append("\\'{y}"),
        'ÿ' => out.append("\\\"{y}"),
        'À' => out.append("\\`{A}"),
        'Á' => out.append("\\'{A}"),
        'Â' => out.append("\\^{A}"),
        'Ä' => out.append("\\\"{A}"),
        'Ã' => out.append("\\~{A}"),
        'Å' => out.append("\\r{A}"),
        'Æ' => out.append("\\AE{}"),
        'Ç' => out.append("\\c{C}"),
        'È' => out.append("\\`{E}"),
        'É' => out.append("\\'{E}"),
        'Ê' => out.append("\\^{E}"),
        'Ë' => out.append("\\\"{E}"),
        'Ì' => out.append("\\`{I}"),
        'Í' => out.append("\\'{I}"),
        'Î' => out.append("\\^{I}"),
        'Ï' => out.append("\\\"{I}"),
        'Ñ' => out.append("\\~{N}"),
        'Ò' => out.append("\\`{O}"),
        'Ó' => out.append("\\'{O}"),
        'Ô' => out.append("\\^{O}"),
        'Ö' => out.append("\\\"{O}"),
        'Õ' => out.append("\\~{O}"),
        'Ø' => out.append("\\O{}"),
        'Ù' => out.append("\\`{U}"),
        'Ú' => out.append("\\'{U}"),
        'Û' => out.append("\\^{U}"),
        'Ü' => out.append("\\\"{U}"),
        'Ý' => out.append("\\'{Y}"),
        _ => {
            push_char(out, c);
            assert(out@ =~= old(out)@ + seq![c]);
        },
    }
}

/// The text with TeX specials escaped and accented letters written as
/// accent commands.
pub fn escape_latex(input: &str) -> (r: String)
    ensures
        r@ == escape_latex_of(input@),
{
    let cs = chars_of(input);
    let mut out = String::new();
    let mut i: usize = 0;
    while i < cs.len()
        invariant
            i <= cs.len(),
            out@ == escape_latex_of(cs@.take(i as int)),
        decreases cs.len() - i,
    {
        push_escaped(&mut out, cs[i]);
        proof {
            assert(cs@.take(i as int + 1).drop_last() == cs@.take(i as int));
        }
        i += 1;
    }
    proof {
        assert(cs@.take(cs@.len() as int) == cs@);
    }
    out
}

// ------------------------------------------------------------------
// Authors and fields
// ------------------------------------------------------------------

/// `Family, Given` with both escaped; the family name alone when the given
/// name is missing or blank.
pub open spec fn format_author_of(a: AuthorView) -> Seq<char> {
    match a.given {
        Some(g) => if trim(g).len() > 0 {
            escape_latex_of(a.family) + ", "@ + escape_latex_of(g)
        } else {
            escape_latex_of(a.family)
        },
        None => escape_latex_of(a.family),
    }
}

fn format_author(author: &Author) -> (r: String)
    ensures
        r@ == format_author_of(author@),
{
    let family = escape_latex(author.family.as_str());
    match &author.given {
        Some(given) => {
            let t = trim_str(given.as_str());
            if t.len() > 0 {
                let mut r = family;
                r.append(", ");
                let g = escape_latex(given.as_str());
                r.append(g.as_str());
                r
            } else {
                family
            }
        },
        None => family,
    }
}

pub open spec fn fields_view(f: Seq<(&'static str, String)>) -> Seq<(Seq<char>, Seq<char>)> {
    f.map_values(|p: (&'static str, String)| (p.0@, p.1@))
}

/// The field a value gives: none when the value is missing or blank, else
/// the trimmed value.
pub open spec fn field_entry(name: Seq<char>, value: Option<Seq<char>>) -> Seq<(Seq<char>, Seq<char>)> {
    match value {
        Some(v) => if trim(v).len() > 0 {
            seq![(name, trim(v))]
        } else {
            Seq::empty()
        },
        None => Seq::empty(),
    }
}

fn push_field(fields: &mut Vec<(&'static str, String)>, name: &'static str, value: Option<String>)
    ensures
        fields_view(final(fields)@) == fields_view(old(fields)@) + field_entry(name@, opt_text(value)),
{
    if let Some(value) = value {
        let t = trim_str(value.as_str());
        if t.len() > 0 {
            let v = string_of(t.as_slice());
            fields.push((name, v));
            assert(fields_view(fields@) =~= fields_view(old(fields)@) + field_entry(name@, opt_text(Some(value))));
            return;
        }
    }
    assert(fields_view(fields@) =~= fields_view(old(fields)@) + field_entry(name@, opt_text(value)));
}

pub open spec fn opt_escape(o: Option<Seq<char>>) -> Option<Seq<char>> {
    match o {
        Some(v) => Some(escape_latex_of(v)),
        None => None,
    }
}

pub open spec fn opt_trim(o: Option<Seq<char>>) -> Option<Seq<char>> {
    match o {
        Some(v) => Some(trim(v)),
        None => None,
    }
}

pub open spec fn formatted_authors(a: Seq<AuthorView>) -> Seq<Seq<char>> {
    a.map_values(|x: AuthorView| format_author_of(x))
}

/// The `author` value: the formatted authors joined by ` and `.
pub open spec fn authors_field(r: RecordView) -> Option<Seq<char>> {
    if r.authors.len() > 0 {
        Some(join(formatted_authors(r.authors), " and "@))
    } else {
        None
    }
}

pub open spec fn year_field(r: RecordView) -> Option<Seq<char>> {
    match r.year {
        Some(y) => Some(decimal(y as int)),
        None => None,
    }
}

/// The fields of an entry, in order, each present only when its value is
/// not blank.
pub open spec fn bib_fields(r: RecordView) -> Seq<(Seq<char>, Seq<char>)> {
    field_entry("title"@, Some(escape_latex_of(r.title)))
    + field_entry("author"@, authors_field(r))
    + field_entry("journal"@, opt_escape(r.container_title))
    + field_entry("volume"@, opt_escape(r.volume))
    + field_entry("number"@, opt_escape(r.number))
    + field_entry("pages"@, opt_escape(r.pages))
    + field_entry("year"@, year_field(r))
    + field_entry("publisher"@, opt_escape(r.publisher))
    + field_entry("doi"@, opt_trim(r.doi))
    + field_entry("eprint"@, opt_trim(r.arxiv_id))
}

pub open spec fn field_line(f: (Seq<char>, Seq<char>)) -> Seq<char> {
    "  "@ + f.0 + "={"@ + f.1 + "}"@
}

pub open spec fn field_lines(fs: Seq<(Seq<char>, Seq<char>)>) -> Seq<Seq<char>> {
    fs.map_values(|f: (Seq<char>, Seq<char>)| field_line(f))
}

// ------------------------------------------------------------------
// Citation key
// ------------------------------------------------------------------

/// The author part of the key: the key of the first author's family name,
/// or `ref` when there is none.
pub open spec fn key_author_part(r: RecordView) -> Seq<char> {
    if r.authors.len() > 0 && family_key(r.authors[0].family).len() > 0 {
        family_key(r.authors[0].family)
    } else {
        "ref"@
    }
}

pub open spec fn key_year_part(r: RecordView) -> Seq<char> {
    match r.year {
        Some(y) => decimal(y as int),
        None => "nodate"@,
    }
}

pub open spec fn key_word_part(r: RecordView) -> Seq<char> {
    match first_title_keyword(r.title) {
        Some(w) => w,
        None => "work"@,
    }
}

/// The citation key: author part, year, title word, with the ASCII letters
/// lowercased.
pub open spec fn citation_key_of(r: RecordView) -> Seq<char> {
    ascii_lower_seq(key_author_part(r)) + key_year_part(r) + ascii_lower_seq(key_word_part(r))
}

/// The whole entry.
pub open spec fn bibtex_of(r: RecordView) -> Seq<char> {
    "@"@ + r.entry_type + "{"@ + citation_key_of(r) + ",\n"@ + join(field_lines(bib_fields(r)), ",\n"@)
        + "\n}"@
}

fn citation_family_key(family: &str) -> (r: String)
    ensures
        r@ == family_key(family@),
{
    let cs = chars_of(family);
    let k = family_key_chars(cs.as_slice());
    string_of(k.as_slice())
}

fn title_key_word(title: &str) -> (r: Option<String>)
    ensures
        opt_text(r) == first_title_keyword(title@),
{
    let cs = chars_of(title);
    match first_title_keyword_chars(cs.as_slice()) {
        Some(w) => Some(string_of(w.as_slice())),
        None => None,
    }
}

/// The lowercase ASCII letters and digits of a text, as a key part.
pub fn ascii_key_part(input: &str) -> (r: String)
    ensures
        r@ == key_part(input@),
        all_ascii(input@) ==> r@ == ascii_key_of(input@),
{
    let cs = chars_of(input);
    let k = key_part_chars(cs.as_slice());
    string_of(k.as_slice())
}

fn citation_key(record: &WorkRecord) -> (r: String)
    ensures
        r@ == citation_key_of(record@),
{
    proof {
        reveal_strlit("ref");
        reveal_strlit("work");
    }
    let ghost rv = record@;
    let mut first_author = String::from_str("ref");
    if record.authors.len() > 0 {
        let k = citation_family_key(record.authors[0].family.as_str());
        assert(record@.authors[0] == record.authors@[0]@);
        if !k.as_str().is_empty() {
            first_author = k;
        }
    }
    assert(first_author@ == key_author_part(rv));
    proof {
        if first_author@ != "ref"@ {
            lemma_key_part_alnum(crate::words::words(rv.authors[0].family, crate::words::Separator::WhiteSpace).last());
        }
        assert(all_ascii(first_author@));
    }
    let year = match record.year {
        Some(y) => {
            let d = decimal_i32(y);
            string_of(d.as_slice())
        },
        None => String::from_str("nodate"),
    };
    let title_word = match title_key_word(record.title.as_str()) {
        Some(w) => w,
        None => String::from_str("work"),
    };
    proof {
        if title_word@ != "work"@ {
            let w = first_title_keyword(rv.title)->0;
            crate::keys::lemma_first_title_keyword_alnum(rv.title);
        }
        assert(all_ascii(title_word@));
    }
    let mut key = lowercase_str(first_author.as_str());
    key.append(year.as_str());
    let low_word = lowercase_str(title_word.as_str());
    key.append(low_word.as_str());
    key
}

pub fn format_bibtex(record: &WorkRecord) -> (r: String)
    ensures
        r@ == bibtex_of(record@),
{
    let ghost rv = record@;
    let key = citation_key(record);
    let mut fields: Vec<(&'static str, String)> = Vec::new();
    assert(fields_view(fields@) =~= Seq::empty());

    push_field(&mut fields, "title", Some(escape_latex(record.title.as_str())));
    if record.authors.len() > 0 {
        let mut names: Vec<Vec<char>> = Vec::new();
        let mut i: usize = 0;
        while i < record.authors.len()
            invariant
                i <= record.authors.len(),
                rv == record@,
                view_chars(names@) == formatted_authors(rv.authors.take(i as int)),
            decreases record.authors.len() - i,
        {
            let f = format_author(&record.authors[i]);
            let fc = chars_of(f.as_str());
            let ghost before = names@;
            names.push(fc);
            proof {
                assert(rv.authors[i as int] == record.authors@[i as int]@);
                assert(view_chars(names@) =~= view_chars(before).push(fc@));
                assert(formatted_authors(rv.authors.take(i as int + 1)) =~= formatted_authors(
                    rv.authors.take(i as int),
                ).push(format_author_of(rv.authors[i as int])));
            }
            i += 1;
        }
        proof {
            assert(rv.authors.take(rv.authors.len() as int) == rv.authors);
        }
        let sep = chars_of(" and ");
        let joined = join_chars(&names, sep.as_slice());
        push_field(&mut fields, "author", Some(string_of(joined.as_slice())));
    }
    let ghost after_author = fields_view(fields@);
    assert(after_author == field_entry("title"@, Some(escape_latex_of(rv.title))) + field_entry(
        "author"@,
        authors_field(rv),
    ));
    if let Some(container) = &record.container_title {
        push_field(&mut fields, "journal", Some(escape_latex(container.as_str())));
    } else {
        assert(field_entry("journal"@, opt_escape(rv.container_title)) =~= Seq::empty());
        assert(fields_view(fields@) =~= after_author + field_entry("journal"@, opt_escape(rv.container_title)));
    }
    push_field(&mut fields, "volume", escape_opt(&record.volume));
    push_field(&mut fields, "number", escape_opt(&record.number));
    push_field(&mut fields, "pages", escape_opt(&record.pages));
    let ghost before_year = fields_view(fields@);
    if let Some(year) = record.year {
        let d = decimal_i32(year);
        push_field(&mut fields, "year", Some(string_of(d.as_slice())));
    } else {
        assert(fields_view(fields@) =~= before_year + field_entry("year"@, year_field(rv)));
    }
    push_field(&mut fields, "publisher", escape_opt(&record.publisher));
    push_field(&mut fields, "doi", trim_opt(&record.doi));
    push_field(&mut fields, "eprint", trim_opt(&record.arxiv_id));
    assert(fields_view(fields@) =~= bib_fields(rv));

    let mut lines: Vec<Vec<char>> = Vec::new();
    let mut j: usize = 0;
    while j < fields.len()
        invariant
            j <= fields.len(),
            view_chars(lines@) == field_lines(fields_view(fields@).take(j as int)),
        decreases fields.len() - j,
    {
        let mut line: Vec<char> = Vec::new();
        append_chars(&mut line, chars_of("  ").as_slice());
        append_chars(&mut line, chars_of(fields[j].0).as_slice());
        append_chars(&mut line, chars_of("={").as_slice());
        append_chars(&mut line, chars_of(fields[j].1.as_str()).as_slice());
        append_chars(&mut line, chars_of("}").as_slice());
        let ghost before = lines@;
        proof {
            let fv = fields_view(fields@);
            assert(line@ == field_line(fv[j as int]));
        }
        lines.push(line);
        proof {
            let fv = fields_view(fields@);
            assert(view_chars(lines@) =~= view_chars(before).push(line@));
            assert(field_lines(fv.take(j as int + 1)) =~= field_lines(fv.take(j as int)).push(
                field_line(fv[j as int]),
            ));
        }
        j += 1;
    }
    proof {
        assert(fields_view(fields@).take(fields@.len() as int) == fields_view(fields@));
    }
    let body = join_chars(&lines, chars_of(",\n").as_slice());

    let mut out = String::from_str("@");
    out.append(record.entry_type.as_str());
    out.append("{");
    out.append(key.as_str());
    out.append(",\n");
    let body_text = string_of(body.as_slice());
    out.append(body_text.as_str());
    out.append("\n}");
    out
}

fn escape_opt(value: &Option<String>) -> (r: Option<String>)
    ensures
        opt_text(r) == opt_escape(opt_text(*value)),
{
    match value {
        Some(v) => Some(escape_latex(v.as_str())),
        None => None,
    }
}

fn trim_opt(value: &Option<String>) -> (r: Option<String>)
    ensures
        opt_text(r) == opt_trim(opt_text(*value)),
{
    match value {
        Some(v) => {
            let t = trim_str(v.as_str());
            Some(string_of(t.as_slice()))
        },
        None => None,
    }
}

/// Every field value is trimmed and not empty.
pub open spec fn fields_clean(fs: Seq<(Seq<char>, Seq<char>)>) -> bool {
    forall|i: int| 0 <= i < fs.len() ==> (#[trigger] fs[i]).1.len() > 0 && trim(fs[i].1) == fs[i].1
}

proof fn lemma_field_entry_clean(name: Seq<char>, value: Option<Seq<char>>)
    ensures
        fields_clean(field_entry(name, value)),
{
    if let Some(v) = value {
        law_trim_idempotent(v);
    }
}

proof fn lemma_fields_clean_concat(a: Seq<(Seq<char>, Seq<char>)>, b: Seq<(Seq<char>, Seq<char>)>)
    requires
        fields_clean(a),
        fields_clean(b),
    ensures
        fields_clean(a + b),
{
    assert forall|i: int| 0 <= i < (a + b).len() implies (#[trigger] (a + b)[i]).1.len() > 0 && trim(
        (a + b)[i].1,
    ) == (a + b)[i].1 by {
        if i < a.len() {
            assert((a + b)[i] == a[i]);
        } else {
            assert((a + b)[i] == b[i - a.len()]);
        }
    }
}

/// An entry lists no blank field, and every value it lists is trimmed.
pub proof fn law_bib_fields_clean(r: RecordView)
    ensures
        fields_clean(bib_fields(r)),
{
    let f1 = field_entry("title"@, Some(escape_latex_of(r.title)));
    let f2 = field_entry("author"@, authors_field(r));
    let f3 = field_entry("journal"@, opt_escape(r.container_title));
    let f4 = field_entry("volume"@, opt_escape(r.volume));
    let f5 = field_entry("number"@, opt_escape(r.number));
    let f6 = field_entry("pages"@, opt_escape(r.pages));
    let f7 = field_entry("year"@, year_field(r));
    let f8 = field_entry("publisher"@, opt_escape(r.publisher));
    let f9 = field_entry("doi"@, opt_trim(r.doi));
    let f10 = field_entry("eprint"@, opt_trim(r.arxiv_id));
    lemma_field_entry_clean("title"@, Some(escape_latex_of(r.title)));
    lemma_field_entry_clean("author"@, authors_field(r));
    lemma_field_entry_clean("journal"@, opt_escape(r.container_title));
    lemma_field_entry_clean("volume"@, opt_escape(r.volume));
    lemma_field_entry_clean("number"@, opt_escape(r.number));
    lemma_field_entry_clean("pages"@, opt_escape(r.pages));
    lemma_field_entry_clean("year"@, year_field(r));
    lemma_field_entry_clean("publisher"@, opt_escape(r.publisher));
    lemma_field_entry_clean("doi"@, opt_trim(r.doi));
    lemma_field_entry_clean("eprint"@, opt_trim(r.arxiv_id));
    lemma_fields_clean_concat(f1, f2);
    lemma_fields_clean_concat(f1 + f2, f3);
    lemma_fields_clean_concat(f1 + f2 + f3, f4);
    lemma_fields_clean_concat(f1 + f2 + f3 + f4, f5);
    lemma_fields_clean_concat(f1 + f2 + f3 + f4 + f5, f6);
    lemma_fields_clean_concat(f1 + f2 + f3 + f4 + f5 + f6, f7);
    lemma_fields_clean_concat(f1 + f2 + f3 + f4 + f5 + f6 + f7, f8);
    lemma_fields_clean_concat(f1 + f2 + f3 + f4 + f5 + f6 + f7 + f8, f9);
    lemma_fields_clean_concat(f1 + f2 + f3 + f4 + f5 + f6 + f7 + f8 + f9, f10);
}

// ------------------------------------------------------------------
// Laws of the citation key
// ------------------------------------------------------------------

proof fn lemma_key_chars_concat(a: Seq<char>, b: Seq<char>)
    requires
        all_key_chars(a),
        all_key_chars(b),
    ensures
        all_key_chars(a + b),
{
    assert forall|i: int| 0 <= i < (a + b).len() implies is_key_char(#[trigger] (a + b)[i]) by {
        if i < a.len() {
            assert((a + b)[i] == a[i]);
        } else {
            assert((a + b)[i] == b[i - a.len()]);
        }
    }
}

proof fn lemma_key_parts_alnum_of(r: RecordView)
    ensures
        all_ascii_alnum(key_author_part(r)),
        all_ascii_alnum(key_word_part(r)),
{
    reveal_strlit("ref");
    reveal_strlit("work");
    if r.authors.len() > 0 {
        let ws = words(r.authors[0].family, Separator::WhiteSpace);
        if ws.len() > 0 {
            lemma_key_part_alnum(ws.last());
        }
    }
    lemma_first_title_keyword_alnum(r.title);
}

/// The citation key depends on nothing but the first author's family name,
/// the year and the title.
pub proof fn law_citation_key_inputs(a: RecordView, b: RecordView)
    requires
        (a.authors.len() > 0) == (b.authors.len() > 0),
        a.authors.len() > 0 ==> a.authors[0].family == b.authors[0].family,
        a.year == b.year,
        a.title == b.title,
    ensures
        citation_key_of(a) == citation_key_of(b),
{
}

/// When the year is absent or not negative, the citation key is made of
/// lowercase ASCII letters and digits.
pub proof fn law_citation_key_chars(r: RecordView)
    requires
        r.year matches Some(y) ==> y >= 0,
    ensures
        all_key_chars(citation_key_of(r)),
{
    reveal_strlit("nodate");
    lemma_key_parts_alnum_of(r);
    lemma_ascii_lower_key_chars(key_author_part(r));
    lemma_ascii_lower_key_chars(key_word_part(r));
    if let Some(y) = r.year {
        lemma_nat_decimal_value(y as nat);
    }
    let yp = key_year_part(r);
    assert(all_key_chars(yp));
    lemma_key_chars_concat(ascii_lower_seq(key_author_part(r)), yp);
    lemma_key_chars_concat(ascii_lower_seq(key_author_part(r)) + yp, ascii_lower_seq(key_word_part(r)));
}

/// In the entry, the key stands between the `{` after the entry type and
/// the next `,`, and holds neither of the two: when the entry type holds
/// no `{`, the key is the text between the first `{` and the next `,`.
pub proof fn law_key_delimited(r: RecordView)
    ensures
        ({
            let e = r.entry_type;
            let k = citation_key_of(r);
            let b = bibtex_of(r);
            &&& b[e.len() as int + 1] == '{'
            &&& b.subrange(e.len() as int + 2, e.len() as int + 2 + k.len()) == k
            &&& b[e.len() as int + 2 + k.len()] == ','
            &&& forall|i: int| 0 <= i < k.len() ==> #[trigger] k[i] != '{' && k[i] != ','
            &&& !e.contains('{') ==> forall|i: int| 0 <= i <= e.len() ==> #[trigger] b[i] != '{'
        }),
{
    reveal_strlit("@");
    reveal_strlit("{");
    reveal_strlit(",\n");
    reveal_strlit("nodate");
    let e = r.entry_type;
    let k = citation_key_of(r);
    let b = bibtex_of(r);
    let rest = join(field_lines(bib_fields(r)), ",\n"@) + "\n}"@;
    assert(b =~= "@"@ + e + "{"@ + k + ",\n"@ + join(field_lines(bib_fields(r)), ",\n"@) + "\n}"@);
    assert(b =~= ("@"@ + e + "{"@) + (k + (",\n"@ + rest)));
    let head = "@"@ + e + "{"@;
    assert(head.len() == e.len() + 2);
    assert(b[e.len() as int + 1] == head[e.len() as int + 1]);
    assert(b.subrange(e.len() as int + 2, e.len() as int + 2 + k.len()) =~= k);
    assert(b[e.len() as int + 2 + k.len()] == ',');
    lemma_key_parts_alnum_of(r);
    lemma_ascii_lower_key_chars(key_author_part(r));
    lemma_ascii_lower_key_chars(key_word_part(r));
    let a = ascii_lower_seq(key_author_part(r));
    let y = key_year_part(r);
    let w = ascii_lower_seq(key_word_part(r));
    assert(forall|i: int| 0 <= i < y.len() ==> #[trigger] y[i] != '{' && y[i] != ',') by {
        match r.year {
            Some(v) => {
                if v >= 0 {
                    lemma_nat_decimal_value(v as nat);
                } else {
                    lemma_nat_decimal_value((-v) as nat);
                    assert forall|i: int| 0 <= i < y.len() implies #[trigger] y[i] != '{' && y[i] != ',' by {
                        if i > 0 {
                            assert(y[i] == nat_decimal((-v) as nat)[i - 1]);
                        }
                    }
                }
            },
            None => {},
        }
    }
    assert forall|i: int| 0 <= i < k.len() implies #[trigger] k[i] != '{' && k[i] != ',' by {
        if i < a.len() {
            assert(k[i] == a[i]);
        } else if i < a.len() + y.len() {
            assert(k[i] == y[i - a.len()]);
        } else {
            assert(k[i] == w[i - a.len() - y.len()]);
        }
    }
    if !e.contains('{') {
        assert forall|i: int| 0 <= i <= e.len() implies #[trigger] b[i] != '{' by {
            assert(b[i] == head[i]);
            if 1 <= i {
                assert(head[i] == e[i - 1]);
            }
        }
    }
}

// ------------------------------------------------------------------
// Laws of escaping
// ------------------------------------------------------------------

/// The accent and base letter of each accented Latin letter that is
/// written with an accent command `\\m{b}`: `m` is `` ` `` for a grave,
/// `'` for an acute, `^` for a circumflex, `"` for a diaeresis, `~` for a
/// tilde, `r` for a ring and `c` for a cedilla; `b` is the letter without
/// its accent, in the same case.
pub open spec fn accent_of(c: char) -> Option<(char, char)> {
    match c {
        // grave
        'à' => Some(('`', 'a')),
        'è' => Some(('`', 'e')),
        'ì' => Some(('`', 'i')),
        'ò' => Some(('`', 'o')),
        'ù' => Some(('`', 'u')),
        'À' => Some(('`', 'A')),
        'È' => Some(('`', 'E')),
        'Ì' => Some(('`', 'I')),
        'Ò' => Some(('`', 'O')),
        'Ù' => Some(('`', 'U')),
        // acute
        'á' => Some(('\'', 'a')),
        'é' => Some(('\'', 'e')),
        'í' => Some(('\'', 'i')),
        'ó' => Some(('\'', 'o')),
        'ú' => Some(('\'', 'u')),
        'ý' => Some(('\'', 'y')),
        'Á' => Some(('\'', 'A')),
        'É' => Some(('\'', 'E')),
        'Í' => Some(('\'', 'I')),
        'Ó' => Some(('\'', 'O')),
        'Ú' => Some(('\'', 'U')),
        'Ý' => Some(('\'', 'Y')),
        // circumflex
        'â' => Some(('^', 'a')),
        'ê' => Some(('^', 'e')),
        'î' => Some(('^', 'i')),
        'ô' => Some(('^', 'o')),
        'û' => Some(('^', 'u')),
        'Â' => Some(('^', 'A')),
        'Ê' => Some(('^', 'E')),
        'Î' => Some(('^', 'I')),
        'Ô' => Some(('^', 'O')),
        'Û' => Some(('^', 'U')),
        // diaeresis
        'ä' => Some(('"', 'a')),
        'ë' => Some(('"', 'e')),
        'ï' => Some(('"', 'i')),
        'ö' => Some(('"', 'o')),
        'ü' => Some(('"', 'u')),
        'ÿ' => Some(('"', 'y')),
        'Ä' => Some(('"', 'A')),
        'Ë' => Some(('"', 'E')),
        'Ï' => Some(('"', 'I')),
        'Ö' => Some(('"', 'O')),
        'Ü' => Some(('"', 'U')),
        // tilde
        'ã' => Some(('~', 'a')),
        'ñ' => Some(('~', 'n')),
        'õ' => Some(('~', 'o')),
        'Ã' => Some(('~', 'A')),
        'Ñ' => Some(('~', 'N')),
        'Õ' => Some(('~', 'O')),
        // ring
        'å' => Some(('r', 'a')),
        'Å' => Some(('r', 'A')),
        // cedilla
        'ç' => Some(('c', 'c')),
        'Ç' => Some(('c', 'C')),
        _ => None,
    }
}

/// The text written for a TeX special or a Latin ligature: a backslash
/// before `{ } & % $ # _`; `~` and `^` followed by `{}`; the backslash
/// as `\\textbackslash{}`; `æ Æ ø Ø` as `\\ae{} \\AE{} \\o{} \\O{}`.
pub open spec fn special_escape(c: char) -> Option<Seq<char>> {
    match c {
        '{' | '}' | '&' | '%' | '$' | '#' | '_' => Some(seq!['\\', c]),
        '~' | '^' => Some(seq!['\\', c, '{', '}']),
        '\\' => Some(seq!['\\', 't', 'e', 'x', 't', 'b', 'a', 'c', 'k', 's', 'l', 'a', 's', 'h', '{', '}']),
        'æ' => Some(seq!['\\', 'a', 'e', '{', '}']),
        'Æ' => Some(seq!['\\', 'A', 'E', '{', '}']),
        'ø' => Some(seq!['\\', 'o', '{', '}']),
        'Ø' => Some(seq!['\\', 'O', '{', '}']),
        _ => None,
    }
}

proof fn lemma_escape_one(c: char)
    ensures
        accent_of(c) matches Some(p) ==> escape_char(c) == seq!['\\', p.0, '{', p.1, '}'],
        special_escape(c) is Some ==> escape_char(c) == special_escape(c)->0,
        accent_of(c) is None && special_escape(c) is None ==> escape_char(c) == seq![c],
{
    match c {
        'à' => {
            reveal_strlit("\\`{a}");
            assert(escape_char(c) =~= seq!['\\', '`', '{', 'a', '}']);
        },
        'á' => {
            reveal_strlit("\\'{a}");
            assert(escape_char(c) =~= seq!['\\', '\'', '{', 'a', '}']);
        },
        'â' => {
            reveal_strlit("\\^{a}");
            assert(escape_char(c) =~= seq!['\\', '^', '{', 'a', '}']);
        },
        'ä' => {
            reveal_strlit("\\\"{a}");
            assert(escape_char(c) =~= seq!['\\', '"', '{', 'a', '}']);
        },
        'ã' => {
            reveal_strlit("\\~{a}");
            assert(escape_char(c) =~= seq!['\\', '~', '{', 'a', '}']);
        },
        'å' => {
            reveal_strlit("\\r{a}");
            assert(escape_char(c) =~= seq!['\\', 'r', '{', 'a', '}']);
        },
        'ç' => {
            reveal_strlit("\\c{c}");
            assert(escape_char(c) =~= seq!['\\', 'c', '{', 'c', '}']);
        },
        'è' => {
            reveal_strlit("\\`{e}");
            assert(escape_char(c) =~= seq!['\\', '`', '{', 'e', '}']);
        },
        'é' => {
            reveal_strlit("\\'{e}");
            assert(escape_char(c) =~= seq!['\\', '\'', '{', 'e', '}']);
        },
        'ê' => {
            reveal_strlit("\\^{e}");
            assert(escape_char(c) =~= seq!['\\', '^', '{', 'e', '}']);
        },
        'ë' => {
            reveal_strlit("\\\"{e}");
            assert(escape_char(c) =~= seq!['\\', '"', '{', 'e', '}']);
        },
        'ì' => {
            reveal_strlit("\\`{i}");
            assert(escape_char(c) =~= seq!['\\', '`', '{', 'i', '}']);
        },
        'í' => {
            reveal_strlit("\\'{i}");
            assert(escape_char(c) =~= seq!['\\', '\'', '{', 'i', '}']);
        },
        'î' => {
            reveal_strlit("\\^{i}");
            assert(escape_char(c) =~= seq!['\\', '^', '{', 'i', '}']);
        },
        'ï' => {
            reveal_strlit("\\\"{i}");
            assert(escape_char(c) =~= seq!['\\', '"', '{', 'i', '}']);
        },
        'ñ' => {
            reveal_strlit("\\~{n}");
            assert(escape_char(c) =~= seq!['\\', '~', '{', 'n', '}']);
        },
        'ò' => {
            reveal_strlit("\\`{o}");
            assert(escape_char(c) =~= seq!['\\', '`', '{', 'o', '}']);
        },
        'ó' => {
            reveal_strlit("\\'{o}");
            assert(escape_char(c) =~= seq!['\\', '\'', '{', 'o', '}']);
        },
        'ô' => {
            reveal_strlit("\\^{o}");
            assert(escape_char(c) =~= seq!['\\', '^', '{', 'o', '}']);
        },
        'ö' => {
            reveal_strlit("\\\"{o}");
            assert(escape_char(c) =~= seq!['\\', '"', '{', 'o', '}']);
        },
        'õ' => {
            reveal_strlit("\\~{o}");
            assert(escape_char(c) =~= seq!['\\', '~', '{', 'o', '}']);
        },
        'ù' => {
            reveal_strlit("\\`{u}");
            assert(escape_char(c) =~= seq!['\\', '`', '{', 'u', '}']);
        },
        'ú' => {
            reveal_strlit("\\'{u}");
            assert(escape_char(c) =~= seq!['\\', '\'', '{', 'u', '}']);
        },
        'û' => {
            reveal_strlit("\\^{u}");
            assert(escape_char(c) =~= seq!['\\', '^', '{', 'u', '}']);
        },
        'ü' => {
            reveal_strlit("\\\"{u}");
            assert(escape_char(c) =~= seq!['\\', '"', '{', 'u', '}']);
        },
        'ý' => {
            reveal_strlit("\\'{y}");
            assert(escape_char(c) =~= seq!['\\', '\'', '{', 'y', '}']);
        },
        'ÿ' => {
            reveal_strlit("\\\"{y}");
            assert(escape_char(c) =~= seq!['\\', '"', '{', 'y', '}']);
        },
        'À' => {
            reveal_strlit("\\`{A}");
            assert(escape_char(c) =~= seq!['\\', '`', '{', 'A', '}']);
        },
        'Á' => {
            reveal_strlit("\\'{A}");
            assert(escape_char(c) =~= seq!['\\', '\'', '{', 'A', '}']);
        },
        'Â' => {
            reveal_strlit("\\^{A}");
            assert(escape_char(c) =~= seq!['\\', '^', '{', 'A', '}']);
        },
        'Ä' => {
            reveal_strlit("\\\"{A}");
            assert(escape_char(c) =~= seq!['\\', '"', '{', 'A', '}']);
        },
        'Ã' => {
            reveal_strlit("\\~{A}");
            assert(escape_char(c) =~= seq!['\\', '~', '{', 'A', '}']);
        },
        'Å' => {
            reveal_strlit("\\r{A}");
            assert(escape_char(c) =~= seq!['\\', 'r', '{', 'A', '}']);
        },
        'Ç' => {
            reveal_strlit("\\c{C}");
            assert(escape_char(c) =~= seq!['\\', 'c', '{', 'C', '}']);
        },
        'È' => {
            reveal_strlit("\\`{E}");
            assert(escape_char(c) =~= seq!['\\', '`', '{', 'E', '}']);
        },
        'É' => {
            reveal_strlit("\\'{E}");
            assert(escape_char(c) =~= seq!['\\', '\'', '{', 'E', '}']);
        },
        'Ê' => {
            reveal_strlit("\\^{E}");
            assert(escape_char(c) =~= seq!['\\', '^', '{', 'E', '}']);
        },
        'Ë' => {
            reveal_strlit("\\\"{E}");
            assert(escape_char(c) =~= seq!['\\', '"', '{', 'E', '}']);
        },
        'Ì' => {
            reveal_strlit("\\`{I}");
            assert(escape_char(c) =~= seq!['\\', '`', '{', 'I', '}']);
        },
        'Í' => {
            reveal_strlit("\\'{I}");
            assert(escape_char(c) =~= seq!['\\', '\'', '{', 'I', '}']);
        },
        'Î' => {
            reveal_strlit("\\^{I}");
            assert(escape_char(c) =~= seq!['\\', '^', '{', 'I', '}']);
        },
        'Ï' => {
            reveal_strlit("\\\"{I}");
            assert(escape_char(c) =~= seq!['\\', '"', '{', 'I', '}']);
        },
        'Ñ' => {
            reveal_strlit("\\~{N}");
            assert(escape_char(c) =~= seq!['\\', '~', '{', 'N', '}']);
        },
        'Ò' => {
            reveal_strlit("\\`{O}");
            assert(escape_char(c) =~= seq!['\\', '`', '{', 'O', '}']);
        },
        'Ó' => {
            reveal_strlit("\\'{O}");
            assert(escape_char(c) =~= seq!['\\', '\'', '{', 'O', '}']);
        },
        'Ô' => {
            reveal_strlit("\\^{O}");
            assert(escape_char(c) =~= seq!['\\', '^', '{', 'O', '}']);
        },
        'Ö' => {
            reveal_strlit("\\\"{O}");
            assert(escape_char(c) =~= seq!['\\', '"', '{', 'O', '}']);
        },
        'Õ' => {
            reveal_strlit("\\~{O}");
            assert(escape_char(c) =~= seq!['\\', '~', '{', 'O', '}']);
        },
        'Ù' => {
            reveal_strlit("\\`{U}");
            assert(escape_char(c) =~= seq!['\\', '`', '{', 'U', '}']);
        },
        'Ú' => {
            reveal_strlit("\\'{U}");
            assert(escape_char(c) =~= seq!['\\', '\'', '{', 'U', '}']);
        },
        'Û' => {
            reveal_strlit("\\^{U}");
            assert(escape_char(c) =~= seq!['\\', '^', '{', 'U', '}']);
        },
        'Ü' => {
            reveal_strlit("\\\"{U}");
            assert(escape_char(c) =~= seq!['\\', '"', '{', 'U', '}']);
        },
        'Ý' => {
            reveal_strlit("\\'{Y}");
            assert(escape_char(c) =~= seq!['\\', '\'', '{', 'Y', '}']);
        },
        '\\' => {
            reveal_strlit("\\textbackslash{}");
            assert(escape_char(c) =~= seq!['\\', 't', 'e', 'x', 't', 'b', 'a', 'c', 'k', 's', 'l', 'a', 's', 'h', '{', '}']);
        },
        '{' => {
            reveal_strlit("\\{");
            assert(escape_char(c) =~= seq!['\\', '{']);
        },
        '}' => {
            reveal_strlit("\\}");
            assert(escape_char(c) =~= seq!['\\', '}']);
        },
        '&' => {
            reveal_strlit("\\&");
            assert(escape_char(c) =~= seq!['\\', '&']);
        },
        '%' => {
            reveal_strlit("\\%");
            assert(escape_char(c) =~= seq!['\\', '%']);
        },
        '$' => {
            reveal_strlit("\\$");
            assert(escape_char(c) =~= seq!['\\', '$']);
        },
        '#' => {
            reveal_strlit("\\#");
            assert(escape_char(c) =~= seq!['\\', '#']);
        },
        '_' => {
            reveal_strlit("\\_");
            assert(escape_char(c) =~= seq!['\\', '_']);
        },
        '~' => {
            reveal_strlit("\\~{}");
            assert(escape_char(c) =~= seq!['\\', '~', '{', '}']);
        },
        '^' => {
            reveal_strlit("\\^{}");
            assert(escape_char(c) =~= seq!['\\', '^', '{', '}']);
        },
        'æ' => {
            reveal_strlit("\\ae{}");
            assert(escape_char(c) =~= seq!['\\', 'a', 'e', '{', '}']);
        },
        'ø' => {
            reveal_strlit("\\o{}");
            assert(escape_char(c) =~= seq!['\\', 'o', '{', '}']);
        },
        'Æ' => {
            reveal_strlit("\\AE{}");
            assert(escape_char(c) =~= seq!['\\', 'A', 'E', '{', '}']);
        },
        'Ø' => {
            reveal_strlit("\\O{}");
            assert(escape_char(c) =~= seq!['\\', 'O', '{', '}']);
        },
        _ => {},
    }
}

/// Each char is escaped on its own, whatever stands around it: an
/// accented letter becomes its accent command around its base letter (so
/// `ü` becomes `\\\"{u}`), a TeX special or ligature its command, and any
/// other char stays as it is.
pub proof fn law_escape_each_char(a: Seq<char>, c: char, z: Seq<char>)
    ensures
        ({
            let written = escape_latex_of(a + seq![c] + z);
            &&& accent_of(c) matches Some(p) ==> written == escape_latex_of(a) + seq![
                '\\',
                p.0,
                '{',
                p.1,
                '}',
            ] + escape_latex_of(z)
            &&& special_escape(c) matches Some(e) ==> written == escape_latex_of(a) + e + escape_latex_of(z)
            &&& accent_of(c) is None && special_escape(c) is None ==> written == escape_latex_of(a) + seq![c]
                + escape_latex_of(z)
        }),
{
    lemma_escape_one(c);
    law_escape_concat(a + seq![c], z);
    law_escape_concat(a, seq![c]);
    assert(seq![c].drop_last() =~= Seq::<char>::empty());
    assert(escape_latex_of(seq![c]) == escape_latex_of(Seq::<char>::empty()) + escape_char(c));
    assert(escape_latex_of(seq![c]) =~= escape_char(c));
}

proof fn lemma_contains_concat(a: Seq<(Seq<char>, Seq<char>)>, b: Seq<(Seq<char>, Seq<char>)>, x: (Seq<char>, Seq<char>))
    ensures
        a.contains(x) || b.contains(x) ==> (a + b).contains(x),
{
    if a.contains(x) {
        let i = choose|i: int| 0 <= i < a.len() && a[i] == x;
        assert((a + b)[i] == x);
    } else if b.contains(x) {
        let i = choose|i: int| 0 <= i < b.len() && b[i] == x;
        assert((a + b)[a.len() + i] == x);
    }
}

/// The entry lists the record's volume under `volume`, its number (the
/// issue) under `number`, its pages under `pages` and its publisher under
/// `publisher`, each escaped and trimmed, whenever the value is not blank.
pub proof fn law_bib_numbered_fields(r: RecordView)
    ensures
        ({
            let fs = bib_fields(r);
            let listed = |name: Seq<char>, v: Option<Seq<char>>| v is Some && trim(escape_latex_of(v->0)).len() > 0
                ==> fs.contains((name, trim(escape_latex_of(v->0))));
            &&& listed("volume"@, r.volume)
            &&& listed("number"@, r.number)
            &&& listed("pages"@, r.pages)
            &&& listed("publisher"@, r.publisher)
        }),
{
    let f1 = field_entry("title"@, Some(escape_latex_of(r.title)));
    let f2 = field_entry("author"@, authors_field(r));
    let f3 = field_entry("journal"@, opt_escape(r.container_title));
    let f4 = field_entry("volume"@, opt_escape(r.volume));
    let f5 = field_entry("number"@, opt_escape(r.number));
    let f6 = field_entry("pages"@, opt_escape(r.pages));
    let f7 = field_entry("year"@, year_field(r));
    let f8 = field_entry("publisher"@, opt_escape(r.publisher));
    let f9 = field_entry("doi"@, opt_trim(r.doi));
    let f10 = field_entry("eprint"@, opt_trim(r.arxiv_id));
    let s3 = f1 + f2 + f3;
    let s4 = s3 + f4;
    let s5 = s4 + f5;
    let s6 = s5 + f6;
    let s7 = s6 + f7;
    let s8 = s7 + f8;
    let s9 = s8 + f9;
    assert(bib_fields(r) == s9 + f10);
    let x4 = (("volume"@), trim(escape_latex_of(r.volume->0)));
    let x5 = (("number"@), trim(escape_latex_of(r.number->0)));
    let x6 = (("pages"@), trim(escape_latex_of(r.pages->0)));
    let x8 = (("publisher"@), trim(escape_latex_of(r.publisher->0)));
    if r.volume is Some && trim(escape_latex_of(r.volume->0)).len() > 0 {
        assert(f4[0] == x4);
        lemma_contains_concat(s3, f4, x4);
    }
    if r.number is Some && trim(escape_latex_of(r.number->0)).len() > 0 {
        assert(f5[0] == x5);
        lemma_contains_concat(s4, f5, x5);
    }
    if r.pages is Some && trim(escape_latex_of(r.pages->0)).len() > 0 {
        assert(f6[0] == x6);
        lemma_contains_concat(s5, f6, x6);
    }
    if r.publisher is Some && trim(escape_latex_of(r.publisher->0)).len() > 0 {
        assert(f8[0] == x8);
        lemma_contains_concat(s7, f8, x8);
    }
    lemma_contains_concat(s4, f5, x4);
    lemma_contains_concat(s5, f6, x4);
    lemma_contains_concat(s5, f6, x5);
    lemma_contains_concat(s6, f7, x4);
    lemma_contains_concat(s6, f7, x5);
    lemma_contains_concat(s6, f7, x6);
    lemma_contains_concat(s7, f8, x4);
    lemma_contains_concat(s7, f8, x5);
    lemma_contains_concat(s7, f8, x6);
    lemma_contains_concat(s8, f9, x4);
    lemma_contains_concat(s8, f9, x5);
    lemma_contains_concat(s8, f9, x6);
    lemma_contains_concat(s8, f9, x8);
    lemma_contains_concat(s9, f10, x4);
    lemma_contains_concat(s9, f10, x5);
    lemma_contains_concat(s9, f10, x6);
    lemma_contains_concat(s9, f10, x8);
}

} // verus!
