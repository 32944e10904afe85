use crate::slicing::{cut, lemma_offsets, offset, width};
use crate::text::{chars_of, contains, is_substring, views};
use vstd::prelude::*;
use vstd::string::StringSliceAdditionalSpecFns;
use vstd::utf8::encode_utf8;

verus! {

/// The position of the first line feed of `text` at or after `from`, or the
/// length of `text` where there is none.
pub open spec fn line_end(text: Seq<char>, from: int) -> int
    decreases text.len() - from,
{
    if from < 0 || from >= text.len() || text[from] == '\n' {
        from
    } else {
        line_end(text, from + 1)
    }
}

/// `line` without the carriage return at its end, if it has one.
pub open spec fn without_return(line: Seq<char>) -> Seq<char> {
    if line.len() > 0 && line.last() == '\r' {
        line.drop_last()
    } else {
        line
    }
}

/// The lines of `text` from position `from` on.
///
/// A line ends with a line feed, or with the text. Neither the line feed
/// nor a carriage return directly before it belongs to the line. What
/// follows the last line feed is a line of its own unless it is empty.
pub open spec fn lines_from(text: Seq<char>, from: int) -> Seq<Seq<char>>
    decreases text.len() - from,
{
    if from < 0 || from >= text.len() {
        Seq::empty()
    } else {
        let end = line_end(text, from);
        proof {
            lemma_line_end(text, from);
        }
        if end >= text.len() {
            seq![text.subrange(from, text.len() as int)]
        } else {
            seq![without_return(text.subrange(from, end))] + lines_from(text, end + 1)
        }
    }
}

/// The lines of `text`.
pub open spec fn lines_of(text: Seq<char>) -> Seq<Seq<char>> {
    lines_from(text, 0)
}

/// The test for a line that holds `query`.
pub open spec fn holds(query: Seq<char>) -> spec_fn(Seq<char>) -> bool {
    |line: Seq<char>| is_substring(query, line)
}

/// `text` in lower case, as `str::to_lowercase` gives it.
pub uninterp spec fn lowercase(text: Seq<char>) -> Seq<char>;

/// The test for a line that holds `query` when the case of the letters is
/// left out of account.
pub open spec fn holds_in_any_case(query: Seq<char>) -> spec_fn(Seq<char>) -> bool {
    |line: Seq<char>| is_substring(lowercase(query), lowercase(line))
}

/// The end of a line lies between its start and the end of the text, at a
/// line feed if inside the text, with no line feed before it.
pub proof fn lemma_line_end(text: Seq<char>, from: int)
    requires
        0 <= from <= text.len(),
    ensures
        from <= line_end(text, from) <= text.len(),
        line_end(text, from) < text.len() ==> text[line_end(text, from)] == '\n',
        forall|k: int| from <= k < line_end(text, from) ==> text[k] != '\n',
    decreases text.len() - from,
{
    if from < text.len() && text[from] != '\n' {
        lemma_line_end(text, from + 1);
    }
}

/// `str::to_lowercase`: the lower case of `s`. The contract gives the
/// result a name and says nothing of what it holds.
#[verifier::external_body]
fn to_lowercase(s: &str) -> (lower: String)
    ensures
        lower@ == lowercase(s@),
{
    s.to_lowercase()
}

/// Splits `contents` into its lines, see [`lines_from`].
pub fn lines<'a>(contents: &'a str) -> (found: Vec<&'a str>)
    ensures
        views(found@) == lines_of(contents@),
{
    let text = chars_of(contents);
    let total: usize = contents.as_bytes().len();
    let mut found: Vec<&'a str> = Vec::new();
    let mut from: usize = 0;
    let mut from_at: usize = 0;
    proof {
        assert(views(found@) + lines_from(text@, 0) =~= lines_of(text@));
        lemma_offsets(text@, 0, 0);
    }
    while from < text.len()
        invariant
            text@ == contents@,
            total == encode_utf8(text@).len(),
            from <= text.len(),
            from_at == offset(text@, from as int),
            views(found@) + lines_from(text@, from as int) == lines_of(text@),
        decreases text.len() - from,
    {
        let mut end: usize = from;
        let mut end_at: usize = from_at;
        while end < text.len() && text[end] != '\n'
            invariant
                total == encode_utf8(text@).len(),
                from <= end <= text.len(),
                end_at == offset(text@, end as int),
                line_end(text@, end as int) == line_end(text@, from as int),
            decreases text.len() - end,
        {
            proof {
                lemma_offsets(text@, end as int, text.len() as int);
                lemma_offsets(text@, end + 1, text.len() as int);
            }
            end_at = end_at + width(text[end]);
            end = end + 1;
        }
        let ghost before = views(found@);
        if end < text.len() {
            proof {
                lemma_offsets(text@, end as int, text.len() as int);
                lemma_offsets(text@, end + 1, text.len() as int);
            }
            let returned: bool = end > from && text[end - 1] == '\r';
            let line = if returned {
                proof {
                    lemma_offsets(text@, end - 1, end as int);
                }
                cut(contents, from_at, end_at - 1, Ghost(from as int), Ghost(end - 1))
            } else {
                cut(contents, from_at, end_at, Ghost(from as int), Ghost(end as int))
            };
            found.push(line);
            proof {
                let whole = text@.subrange(from as int, end as int);
                assert(line@ =~= without_return(whole));
                assert(views(found@) =~= before.push(line@));
                assert(before + (seq![line@] + lines_from(text@, end + 1)) =~= before.push(line@)
                    + lines_from(text@, end + 1));
            }
            from_at = end_at + width(text[end]);
            from = end + 1;
        } else {
            let line = cut(contents, from_at, end_at, Ghost(from as int), Ghost(end as int));
            found.push(line);
            proof {
                assert(views(found@) =~= before.push(line@));
                assert(before + seq![line@] =~= before.push(line@) + lines_from(
                    text@,
                    end as int,
                ));
            }
            from_at = end_at;
            from = end;
        }
    }
    assert(views(found@) + lines_from(text@, from as int) =~= views(found@));
    found
}

/// The lines of `contents` that hold `query`, in their order.
pub fn search<'a>(query: &str, contents: &'a str) -> (found: Vec<&'a str>)
    ensures
        views(found@) == lines_of(contents@).filter(holds(query@)),
{
    let all = lines(contents);
    let mut found: Vec<&'a str> = Vec::new();
    let mut i: usize = 0;
    while i < all.len()
        invariant
            i <= all.len(),
            views(found@) == views(all@).take(i as int).filter(holds(query@)),
        decreases all.len() - i,
    {
        let line = all[i];
        let ghost before = views(found@);
        let hit = contains(line, query);
        if hit {
            found.push(line);
            assert(views(found@) =~= before.push(line@));
        }
        proof {
            let seen = views(all@).take(i + 1);
            assert(seen.drop_last() =~= views(all@).take(i as int));
            assert(seen.last() == line@);
            reveal(Seq::filter);
        }
        i = i + 1;
    }
    assert(views(all@).take(all.len() as int) =~= views(all@));
    found
}

/// The lines of `contents` that hold `query` when the case of the letters
/// is left out of account, in their order: a line is found when its lower
/// case holds the lower case of `query`.
pub fn search_case_insensitive<'a>(query: &str, contents: &'a str) -> (found: Vec<&'a str>)
    ensures
        views(found@) == lines_of(contents@).filter(holds_in_any_case(query@)),
{
    let pattern = to_lowercase(query);
    let all = lines(contents);
    let mut found: Vec<&'a str> = Vec::new();
    let mut i: usize = 0;
    while i < all.len()
        invariant
            i <= all.len(),
            pattern@ == lowercase(query@),
            views(found@) == views(all@).take(i as int).filter(holds_in_any_case(query@)),
        decreases all.len() - i,
    {
        let line = all[i];
        let ghost before = views(found@);
        let lower = to_lowercase(line);
        let hit = contains(lower.as_str(), pattern.as_str());
        if hit {
            found.push(line);
            assert(views(found@) =~= before.push(line@));
        }
        proof {
            let seen = views(all@).take(i + 1);
            assert(seen.drop_last() =~= views(all@).take(i as int));
            assert(seen.last() == line@);
            reveal(Seq::filter);
        }
        i = i + 1;
    }
    assert(views(all@).take(all.len() as int) =~= views(all@));
    found
}


/// What to search for, where, and how.
pub struct Config {
    pub query: String,
    pub filename: String,
    pub case_sensitive: bool,
}

impl Config {
    /// What is wrong with a command line of `count` arguments, the name of
    /// the program included.
    pub open spec fn complaint(count: nat) -> Seq<char> {
        if count <= 1 {
            "Didn't get a query string"@
        } else if count == 2 {
            "Didn't get a file name"@
        } else if count < 6 {
            "Not enough arguments"@
        } else {
            "Too many arguments"@
        }
    }

    /// Reads the configuration off the command line `args`, whose first
    /// entry is the name of the program. The second is the query, the third
    /// the name of the file, and exactly three more have to follow them.
    /// Any other number of arguments is answered with a complaint.
    pub fn new(args: &Vec<String>, case_sensitive: bool) -> (config: Result<Config, &'static str>)
        ensures
            config is Ok <==> args@.len() == 6,
            config matches Ok(c) ==> {
                &&& c.query@ == args@[1]@
                &&& c.filename@ == args@[2]@
                &&& c.case_sensitive == case_sensitive
            },
            config matches Err(e) ==> e@ == Config::complaint(args@.len()),
    {
        if args.len() < 2 {
            return Err("Didn't get a query string");
        }
        if args.len() < 3 {
            return Err("Didn't get a file name");
        }
        let left: usize = args.len() - 3;
        if left < 3 {
            return Err("Not enough arguments");
        }
        if left > 3 {
            return Err("Too many arguments");
        }
        Ok(Config { query: args[1].clone(), filename: args[2].clone(), case_sensitive })
    }
}

/// The lines of `contents` that the search described by `config` finds:
/// those of [`search`] where it minds the case of the letters, those of
/// [`search_case_insensitive`] where it does not.
pub fn run<'a>(config: &Config, contents: &'a str) -> (found: Vec<&'a str>)
    ensures
        views(found@) == lines_of(contents@).filter(
            if config.case_sensitive {
                holds(config.query@)
            } else {
                holds_in_any_case(config.query@)
            },
        ),
{
    if config.case_sensitive {
        search(config.query.as_str(), contents)
    } else {
        search_case_insensitive(config.query.as_str(), contents)
    }
}

} // verus!
