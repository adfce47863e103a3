//! The lines a result list shows for a record: its authors with initials,
//! and its venue.
use vstd::prelude::*;
use vstd::string::StringExecFns;
use crate::metadata::{AuthorView, RecordView, SourceKind, WorkRecord, opt_text};
use crate::numbers::{decimal, decimal_i32};
use crate::text::{append_chars, char_uppercase, chars_equal, chars_of, string_of, uppercase_char};
use crate::words::{Separator, join, join_chars, split_chars, split_pieces, view_chars, view_strings};

verus! {

/// The uppercased first char of each non-empty piece.
pub open spec fn upper_firsts(ps: Seq<Seq<char>>) -> Seq<Seq<char>>
    decreases ps.len(),
{
    if ps.len() == 0 {
        Seq::empty()
    } else if ps.last().len() > 0 {
        upper_firsts(ps.drop_last()).push(char_uppercase(ps.last()[0]))
    } else {
        upper_firsts(ps.drop_last())
    }
}

/// The initials of a given name: the uppercased first chars of its parts
/// between white space and hyphens, joined by spaces.
pub open spec fn initials_of(given: Option<Seq<char>>) -> Seq<char> {
    let g = match given {
        Some(g) => g,
        None => Seq::empty(),
    };
    join(upper_firsts(split_pieces(g, Separator::WhiteSpaceOrHyphen)), " "@)
}

/// An author as listed: initials and family name, or the family name alone.
pub open spec fn listed_name_of(a: AuthorView) -> Seq<char> {
    let i = initials_of(a.given);
    if i.len() == 0 {
        a.family
    } else {
        i + " "@ + a.family
    }
}

pub open spec fn listed_names(authors: Seq<AuthorView>) -> Seq<Seq<char>> {
    authors.map_values(|a: AuthorView| listed_name_of(a))
}

/// The author lines: one line of up to three names; with more, all but the
/// last two on the first line and the last two on the second.
pub open spec fn author_lines_of(authors: Seq<AuthorView>) -> Seq<Seq<char>> {
    let names = listed_names(authors);
    if names.len() == 0 {
        seq!["Unknown authors"@]
    } else if names.len() <= 3 {
        seq![join(names, ", "@)]
    } else {
        seq![join(names.take(names.len() - 2), ", "@), join(names.skip(names.len() - 2), ", "@)]
    }
}

/// The venue line: the container title, else the publisher, else a word for
/// the source; then the year; then the publisher when it is not the venue.
pub open spec fn venue_parts_of(r: RecordView) -> Seq<Seq<char>> {
    let venue = match r.container_title {
        Some(c) => c,
        None => match r.publisher {
            Some(p) => p,
            None => match r.source {
                SourceKind::Crossref => "Published work"@,
                SourceKind::Arxiv => "arXiv preprint"@,
            },
        },
    };
    let with_year = match r.year {
        Some(y) => seq![venue, decimal(y as int)],
        None => seq![venue],
    };
    match r.publisher {
        Some(p) => if r.container_title != Some(p) {
            with_year.push(p)
        } else {
            with_year
        },
        None => with_year,
    }
}

pub open spec fn venue_line_of(r: RecordView) -> Seq<char> {
    join(venue_parts_of(r), ", "@)
}

fn initials(given: &Option<String>) -> (r: Vec<char>)
    ensures
        r@ == initials_of(opt_text(*given)),
{
    let g = match given {
        Some(g) => chars_of(g.as_str()),
        None => Vec::new(),
    };
    let pieces = split_chars(g.as_slice(), Separator::WhiteSpaceOrHyphen);
    let mut firsts: Vec<Vec<char>> = Vec::new();
    let mut i: usize = 0;
    while i < pieces.len()
        invariant
            i <= pieces.len(),
            view_chars(firsts@) == upper_firsts(view_chars(pieces@.take(i as int))),
        decreases pieces.len() - i,
    {
        let ghost prev = view_chars(pieces@.take(i as int));
        proof {
            let x = pieces@[i as int]@;
            assert(view_chars(pieces@.take(i as int + 1)) =~= prev.push(x));
            assert(prev.push(x).drop_last() =~= prev);
        }
        if pieces[i].len() > 0 {
            let u = uppercase_char(pieces[i][0]);
            let ghost before = firsts@;
            firsts.push(u);
            proof {
                assert(view_chars(firsts@) =~= view_chars(before).push(u@));
            }
        }
        i += 1;
    }
    proof {
        assert(pieces@.take(pieces@.len() as int) == pieces@);
    }
    let space = chars_of(" ");
    join_chars(&firsts, space.as_slice())
}

fn listed_name(record: &WorkRecord, i: usize) -> (r: Vec<char>)
    requires
        i < record.authors.len(),
    ensures
        r@ == listed_name_of(record@.authors[i as int]),
{
    assert(record@.authors[i as int] == record.authors@[i as int]@);
    let a = &record.authors[i];
    let mut name = initials(&a.given);
    let family = chars_of(a.family.as_str());
    if name.len() == 0 {
        family
    } else {
        append_chars(&mut name, chars_of(" ").as_slice());
        append_chars(&mut name, family.as_slice());
        name
    }
}

pub fn author_lines(record: &WorkRecord) -> (r: Vec<String>)
    ensures
        view_strings(r@) == author_lines_of(record@.authors),
{
    let ghost authors = record@.authors;
    let mut names: Vec<Vec<char>> = Vec::new();
    let mut i: usize = 0;
    while i < record.authors.len()
        invariant
            i <= record.authors.len(),
            authors == record@.authors,
            view_chars(names@) == listed_names(authors.take(i as int)),
        decreases record.authors.len() - i,
    {
        let n = listed_name(record, i);
        let ghost before = names@;
        names.push(n);
        proof {
            assert(view_chars(names@) =~= view_chars(before).push(n@));
            assert(listed_names(authors.take(i as int + 1)) =~= listed_names(authors.take(i as int)).push(
                listed_name_of(authors[i as int]),
            ));
        }
        i += 1;
    }
    proof {
        assert(authors.take(authors.len() as int) == authors);
    }
    let sep = chars_of(", ");
    let len = names.len();
    let mut lines: Vec<String> = Vec::new();
    if len == 0 {
        lines.push(String::from_str("Unknown authors"));
    } else if len <= 3 {
        let line = join_chars(&names, sep.as_slice());
        lines.push(string_of(line.as_slice()));
    } else {
        let mut head: Vec<Vec<char>> = Vec::new();
        let mut tail: Vec<Vec<char>> = Vec::new();
        let mut k: usize = 0;
        while k < len
            invariant
                k <= len == names.len(),
                len > 3,
                view_chars(head@) == view_chars(names@).take(if k < len - 2 {
                    k as int
                } else {
                    len - 2
                }),
                view_chars(tail@) == view_chars(names@).subrange(len - 2, if k < len - 2 {
                    len - 2
                } else {
                    k as int
                }),
            decreases len - k,
        {
            let w = crate::text::copy_chars(names[k].as_slice());
            if k < len - 2 {
                let ghost before = head@;
                head.push(w);
                proof {
                    assert(view_chars(head@) =~= view_chars(before).push(w@));
                    assert(view_chars(names@).take(k + 1) =~= view_chars(names@).take(k as int).push(
                        names@[k as int]@,
                    ));
                }
            } else {
                let ghost before = tail@;
                tail.push(w);
                proof {
                    assert(view_chars(tail@) =~= view_chars(before).push(w@));
                    assert(view_chars(names@).subrange(len - 2, k + 1) =~= view_chars(names@).subrange(
                        len - 2,
                        k as int,
                    ).push(names@[k as int]@));
                }
            }
            k += 1;
        }
        proof {
            assert(view_chars(names@).subrange(len - 2, len as int) =~= view_chars(names@).skip(len - 2));
        }
        let first = join_chars(&head, sep.as_slice());
        let second = join_chars(&tail, sep.as_slice());
        lines.push(string_of(first.as_slice()));
        lines.push(string_of(second.as_slice()));
    }
    proof {
        assert(view_strings(lines@) =~= author_lines_of(authors));
    }
    lines
}

pub fn venue_line(record: &WorkRecord) -> (r: String)
    ensures
        r@ == venue_line_of(record@),
{
    let venue: Vec<char> = match &record.container_title {
        Some(c) => chars_of(c.as_str()),
        None => match &record.publisher {
            Some(p) => chars_of(p.as_str()),
            None => match record.source {
                SourceKind::Crossref => chars_of("Published work"),
                SourceKind::Arxiv => chars_of("arXiv preprint"),
            },
        },
    };
    let mut parts: Vec<Vec<char>> = Vec::new();
    parts.push(venue);
    if let Some(year) = record.year {
        parts.push(decimal_i32(year));
    }
    if let Some(publisher) = &record.publisher {
        let p = chars_of(publisher.as_str());
        let same = match &record.container_title {
            Some(c) => {
                let cc = chars_of(c.as_str());
                chars_equal(cc.as_slice(), p.as_slice())
            },
            None => false,
        };
        if !same {
            parts.push(p);
        }
    }
    proof {
        assert(view_chars(parts@) =~= venue_parts_of(record@));
    }
    let sep = chars_of(", ");
    let line = join_chars(&parts, sep.as_slice());
    string_of(line.as_slice())
}

} // verus!
