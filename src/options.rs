//! The run's configuration, read from the command line.

use vstd::prelude::*;
use vstd::string::StrSliceExecFns;

verus! {

/// The URLs to fetch, in the order given, and the query to look for in each body.
#[derive(Debug)]
pub struct Options {
    pub urls: Vec<String>,
    pub query: String,
}

impl Options {
    /// The URLs as character sequences.
    pub open spec fn urls_view(&self) -> Seq<Seq<char>> {
        self.urls@.map_values(|u: String| u@)
    }
}

/// A command line that cannot be read.
#[derive(Clone, Copy, Debug, PartialEq, Eq, Structural)]
pub enum ConfigError {
    /// `--urls` is the last argument, with no list after it.
    MissingUrlList,
}

/// The pieces of `s` between commas, the first of them prefixed by `cur`.
pub open spec fn split_pieces(s: Seq<char>, cur: Seq<char>) -> Seq<Seq<char>>
    decreases s.len(),
{
    if s.len() == 0 {
        seq![cur]
    } else if s[0] == ',' {
        seq![cur] + split_pieces(s.drop_first(), Seq::empty())
    } else {
        split_pieces(s.drop_first(), cur.push(s[0]))
    }
}

/// The pieces of `s` between commas, empty ones included; at least one.
pub open spec fn split_commas(s: Seq<char>) -> Seq<Seq<char>> {
    split_pieces(s, Seq::empty())
}

/// Splits `s` at every comma, with no escaping.
pub fn split_urls(s: &str) -> (r: Vec<String>)
    ensures
        r@.map_values(|u: String| u@) == split_commas(s@),
{
    let n = s.unicode_len();
    let mut pieces: Vec<String> = Vec::new();
    let mut start: usize = 0;
    let mut i: usize = 0;
    assert(s@.skip(0) =~= s@);
    assert(s@.subrange(0, 0) =~= Seq::<char>::empty());
    assert(pieces@.map_values(|u: String| u@) + split_commas(s@) =~= split_commas(s@));
    while i < n
        invariant
            n == s@.len(),
            start <= i <= n,
            split_commas(s@) == pieces@.map_values(|u: String| u@) + split_pieces(
                s@.skip(i as int),
                s@.subrange(start as int, i as int),
            ),
        decreases n - i,
    {
        let c = s.get_char(i);
        let ghost cur = s@.subrange(start as int, i as int);
        let ghost rest = s@.skip(i as int);
        assert(rest.drop_first() =~= s@.skip(i + 1));
        assert(rest[0] == c);
        if c == ',' {
            let piece = s.substring_char(start, i).to_owned();
            let ghost before = pieces@.map_values(|u: String| u@);
            pieces.push(piece);
            assert(pieces@.map_values(|u: String| u@) =~= before.push(cur));
            assert(s@.subrange(i + 1, i + 1) =~= Seq::<char>::empty());
            assert(before + (seq![cur] + split_pieces(s@.skip(i + 1), Seq::empty()))
                =~= before.push(cur) + split_pieces(s@.skip(i + 1), Seq::empty()));
            start = i + 1;
        } else {
            assert(cur.push(c) =~= s@.subrange(start as int, i + 1));
        }
        i = i + 1;
    }
    let ghost before = pieces@.map_values(|u: String| u@);
    let ghost cur = s@.subrange(start as int, n as int);
    assert(s@.skip(n as int) =~= Seq::<char>::empty());
    let piece = s.substring_char(start, n).to_owned();
    pieces.push(piece);
    assert(pieces@.map_values(|u: String| u@) =~= before + seq![cur]);
    pieces
}

/// The arguments as character sequences.
pub open spec fn args_view(args: Seq<String>) -> Seq<Seq<char>> {
    args.map_values(|a: String| a@)
}

/// Reads the arguments from index `i` on, with the list and query read so far.
/// `--urls` takes the next argument as the URL list; any other argument is the
/// query, the last one winning.
pub open spec fn parse_from(
    args: Seq<Seq<char>>,
    i: int,
    urls: Seq<Seq<char>>,
    query: Seq<char>,
) -> Option<(Seq<Seq<char>>, Seq<char>)>
    decreases args.len() - i,
{
    if i >= args.len() {
        Some((urls, query))
    } else if args[i] == "--urls"@ {
        if i + 1 < args.len() {
            parse_from(args, i + 2, split_commas(args[i + 1]), query)
        } else {
            None
        }
    } else {
        parse_from(args, i + 1, urls, args[i])
    }
}

/// The URL list and query of a command line whose first argument is the
/// program's name; `None` where `--urls` has no list after it.
pub open spec fn parse_args(args: Seq<Seq<char>>) -> Option<(Seq<Seq<char>>, Seq<char>)> {
    parse_from(args, 1, Seq::empty(), Seq::empty())
}

impl Options {
    /// Reads a command line whose first argument is the program's name.
    /// Unset, the list is empty and the query is empty.
    pub fn from(args: &Vec<String>) -> (r: Result<Options, ConfigError>)
        ensures
            match r {
                Ok(o) => parse_args(args_view(args@)) == Some((o.urls_view(), o.query@)),
                Err(e) => parse_args(args_view(args@)) is None && e == ConfigError::MissingUrlList,
            },
    {
        let ghost v = args_view(args@);
        let flag = String::from_str("--urls");
        let mut urls: Vec<String> = Vec::new();
        let mut query = String::new();
        let mut i: usize = 1;
        assert(urls@.map_values(|u: String| u@) =~= Seq::<Seq<char>>::empty());
        while i < args.len()
            invariant
                v == args_view(args@),
                flag@ == "--urls"@,
                1 <= i,
                parse_args(v) == parse_from(v, i as int, urls@.map_values(|u: String| u@), query@),
            decreases args@.len() - i,
        {
            assert(v[i as int] == args@[i as int]@);
            if args[i] == flag {
                if i + 1 < args.len() {
                    assert(v[i + 1] == args@[i + 1]@);
                    urls = split_urls(args[i + 1].as_str());
                    i = i + 2;
                } else {
                    return Err(ConfigError::MissingUrlList);
                }
            } else {
                query = args[i].clone();
                i = i + 1;
            }
        }
        let o = Options { urls, query };
        assert(o.urls_view() == urls@.map_values(|u: String| u@));
        Ok(o)
    }
}

} // verus!
