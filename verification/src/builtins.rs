//! The decision and text-assembly parts of the simpler builtins: what `echo`
//! prints, which directory `cd` selects, and how `rm`/`mkdir` split a flag
//! token out of their operands. The filesystem work itself stays with the
//! caller; these functions are pure.
use vstd::prelude::*;

use crate::text::push_char;
use crate::text::str_eq;

verus! {

/// `s` with its maximal run of leading double quotes removed.
pub open spec fn drop_leading_quotes(s: Seq<char>) -> Seq<char>
    decreases s.len(),
{
    if s.len() > 0 && s[0] == '"' {
        drop_leading_quotes(s.drop_first())
    } else {
        s
    }
}

/// `s` with its maximal run of trailing double quotes removed.
pub open spec fn drop_trailing_quotes(s: Seq<char>) -> Seq<char>
    decreases s.len(),
{
    if s.len() > 0 && s.last() == '"' {
        drop_trailing_quotes(s.drop_last())
    } else {
        s
    }
}

/// `s` stripped of double quotes at both ends.
pub open spec fn trim_quotes_spec(s: Seq<char>) -> Seq<char> {
    drop_trailing_quotes(drop_leading_quotes(s))
}

/// Strips double quotes from both ends of a string.
pub fn trim_quotes(s: &str) -> (r: String)
    ensures
        r@ == trim_quotes_spec(s@),
{
    let len = s.unicode_len();
    let mut start: usize = 0;
    proof {
        assert(s@.skip(0) =~= s@);
    }
    while start < len && s.get_char(start) == '"'
        invariant
            start <= len,
            len == s@.len(),
            drop_leading_quotes(s@) == drop_leading_quotes(s@.skip(start as int)),
        decreases len - start,
    {
        proof {
            assert(s@.skip(start as int)[0] == s@[start as int]);
            assert(s@.skip(start as int).drop_first() =~= s@.skip(start + 1));
        }
        start += 1;
    }
    proof {
        if start < len {
            assert(s@.skip(start as int)[0] == s@[start as int]);
        }
        assert(drop_leading_quotes(s@) == s@.skip(start as int));
    }
    let ghost t = s@.skip(start as int);
    let mut end: usize = len;
    proof {
        assert(t.take((len - start) as int) =~= t);
    }
    while end > start && s.get_char(end - 1) == '"'
        invariant
            start <= end <= len,
            len == s@.len(),
            t == s@.skip(start as int),
            drop_trailing_quotes(t) == drop_trailing_quotes(t.take((end - start) as int)),
        decreases end,
    {
        proof {
            let u = (end - start) as int;
            assert(t.take(u).last() == t[u - 1]);
            assert(t[u - 1] == s@[end - 1]);
            assert(t.take(u).drop_last() =~= t.take(u - 1));
        }
        end -= 1;
    }
    proof {
        let u = (end - start) as int;
        if end > start {
            assert(t.take(u).last() == t[u - 1]);
            assert(t[u - 1] == s@[end - 1]);
        }
        assert(drop_trailing_quotes(t.take(u)) == t.take(u));
        assert(s@.subrange(start as int, end as int) =~= t.take(u));
    }
    let sub = s.substring_char(start, end);
    String::from_str(sub)
}

/// The pieces joined with single spaces between them.
pub open spec fn join_spaced(xs: Seq<Seq<char>>) -> Seq<char>
    decreases xs.len(),
{
    if xs.len() == 0 {
        Seq::<char>::empty()
    } else if xs.len() == 1 {
        xs[0]
    } else {
        join_spaced(xs.drop_last()) + " "@ + xs.last()
    }
}

/// Whether `echo` suppresses the trailing newline: its first argument is `-n`.
pub open spec fn echo_skips_newline(args: Seq<Seq<char>>) -> bool {
    args.len() > 0 && args[0] == "-n"@
}

/// What `echo` prints: the arguments after an optional leading `-n`, each
/// stripped of surrounding double quotes, joined with single spaces.
pub open spec fn echo_output_spec(args: Seq<Seq<char>>) -> Seq<char> {
    let rest = if echo_skips_newline(args) {
        args.drop_first()
    } else {
        args
    };
    join_spaced(rest.map_values(|a: Seq<char>| trim_quotes_spec(a)))
}

/// Extending a join by one piece appends a space and the piece, except for
/// the first piece.
proof fn lemma_join_take_step(xs: Seq<Seq<char>>, k: int)
    requires
        0 <= k < xs.len(),
    ensures
        k == 0 ==> join_spaced(xs.take(1)) == xs[0],
        k > 0 ==> join_spaced(xs.take(k + 1)) == join_spaced(xs.take(k)) + " "@ + xs[k],
{
    assert(xs.take(k + 1).drop_last() =~= xs.take(k));
    assert(xs.take(k + 1).last() == xs[k]);
    if k == 0 {
        assert(xs.take(1)[0] == xs[0]);
    }
}

/// Assembles what `echo` prints, and whether the trailing newline is kept.
pub fn render_echo(args: &Vec<String>) -> (r: (bool, String))
    ensures
        r.0 == echo_skips_newline(args.deep_view()),
        r.1@ == echo_output_spec(args.deep_view()),
{
    let skip_newline = args.len() > 0 && str_eq(args[0].as_str(), "-n");
    proof {
        if args@.len() > 0 {
            assert(args.deep_view()[0] == args@[0]@);
        }
    }
    let start: usize = if skip_newline {
        1
    } else {
        0
    };
    let ghost rest = if skip_newline {
        args.deep_view().drop_first()
    } else {
        args.deep_view()
    };
    let ghost mapped = rest.map_values(|a: Seq<char>| trim_quotes_spec(a));
    let mut out = String::new();
    let mut i: usize = start;
    proof {
        assert(mapped.take(0) =~= Seq::<Seq<char>>::empty());
    }
    while i < args.len()
        invariant
            start <= i <= args@.len(),
            start <= 1,
            skip_newline ==> start == 1 && args@.len() >= 1,
            rest == (if skip_newline {
                args.deep_view().drop_first()
            } else {
                args.deep_view()
            }),
            mapped == rest.map_values(|a: Seq<char>| trim_quotes_spec(a)),
            mapped.len() == args@.len() - start,
            args.deep_view().len() == args@.len(),
            out@ == join_spaced(mapped.take((i - start) as int)),
        decreases args@.len() - i,
    {
        let k = i - start;
        proof {
            assert(mapped[k as int] == trim_quotes_spec(rest[k as int]));
            assert(rest[k as int] == args.deep_view()[i as int]);
            assert(args.deep_view()[i as int] == args@[i as int]@);
            lemma_join_take_step(mapped, k as int);
        }
        if k > 0 {
            push_char(&mut out, ' ');
        }
        out.append(trim_quotes(args[i].as_str()).as_str());
        proof {
            if k > 0 {
                reveal_strlit(" ");
                assert(out@ =~= join_spaced(mapped.take(k + 1)));
            } else {
                assert(out@ =~= join_spaced(mapped.take(1)));
            }
        }
        i += 1;
    }
    proof {
        assert(mapped.take((args@.len() - start) as int) =~= mapped);
    }
    (skip_newline, out)
}

/// The directory `cd` selects, or the diagnostic it reports: with more than
/// one argument an error; with none, or with `~`, the home directory (an
/// error when none is known); with `..` the parent of the current directory
/// (an error at the root); otherwise the argument itself.
pub open spec fn cd_target_spec(
    args: Seq<Seq<char>>,
    home: Option<Seq<char>>,
    parent: Option<Seq<char>>,
) -> Result<Seq<char>, Seq<char>> {
    if args.len() > 1 {
        Result::Err("cd: too many arguments"@)
    } else if args.len() == 0 {
        match home {
            Option::Some(h) => Result::Ok(h),
            Option::None => Result::Err("HOME environment variable not set"@),
        }
    } else if args[0] == ".."@ {
        match parent {
            Option::Some(p) => Result::Ok(p),
            Option::None => Result::Err("cd: cannot go up from root directory"@),
        }
    } else if args[0] == "~"@ {
        match home {
            Option::Some(h) => Result::Ok(h),
            Option::None => Result::Err("HOME environment variable not set"@),
        }
    } else {
        Result::Ok(args[0])
    }
}

/// Selects the directory `cd` changes to, given the home directory and the
/// parent of the current directory as far as they are known.
pub fn select_cd_target(args: &Vec<String>, home: Option<String>, parent: Option<String>) -> (r:
    Result<String, String>)
    ensures
        match cd_target_spec(
            args.deep_view(),
            match home {
                Option::Some(h) => Option::Some(h@),
                Option::None => Option::None,
            },
            match parent {
                Option::Some(p) => Option::Some(p@),
                Option::None => Option::None,
            },
        ) {
            Result::Ok(t) => r is Ok && r->Ok_0@ == t,
            Result::Err(m) => r is Err && r->Err_0@ == m,
        },
{
    proof {
        if args@.len() > 0 {
            assert(args.deep_view()[0] == args@[0]@);
        }
    }
    if args.len() > 1 {
        Result::Err(String::from_str("cd: too many arguments"))
    } else if args.len() == 0 {
        match home {
            Option::Some(h) => Result::Ok(h),
            Option::None => Result::Err(String::from_str("HOME environment variable not set")),
        }
    } else if str_eq(args[0].as_str(), "..") {
        match parent {
            Option::Some(p) => Result::Ok(p),
            Option::None => Result::Err(
                String::from_str("cd: cannot go up from root directory"),
            ),
        }
    } else if str_eq(args[0].as_str(), "~") {
        match home {
            Option::Some(h) => Result::Ok(h),
            Option::None => Result::Err(String::from_str("HOME environment variable not set")),
        }
    } else {
        Result::Ok(args[0].clone())
    }
}

/// Whether some argument equals the flag token.
pub open spec fn contains_flag(args: Seq<Seq<char>>, flag: Seq<char>) -> bool
    decreases args.len(),
{
    if args.len() == 0 {
        false
    } else {
        contains_flag(args.drop_last(), flag) || args.last() == flag
    }
}

/// The arguments with every occurrence of the flag token removed, order kept.
pub open spec fn without_flag(args: Seq<Seq<char>>, flag: Seq<char>) -> Seq<Seq<char>>
    decreases args.len(),
{
    if args.len() == 0 {
        Seq::<Seq<char>>::empty()
    } else {
        without_flag(args.drop_last(), flag) + (if args.last() == flag {
            Seq::<Seq<char>>::empty()
        } else {
            seq![args.last()]
        })
    }
}

/// Splits a flag token (such as `-r` or `-p`) out of an argument list:
/// whether it occurs, and the remaining operands in their original order.
pub fn partition_args(args: &Vec<String>, flag: &str) -> (r: (bool, Vec<String>))
    ensures
        r.0 == contains_flag(args.deep_view(), flag@),
        r.1.deep_view() == without_flag(args.deep_view(), flag@),
{
    let mut found = false;
    let mut rest: Vec<String> = Vec::new();
    let mut i: usize = 0;
    proof {
        assert(args.deep_view().take(0) =~= Seq::<Seq<char>>::empty());
        assert(rest.deep_view() =~= Seq::<Seq<char>>::empty());
    }
    while i < args.len()
        invariant
            i <= args@.len(),
            args.deep_view().len() == args@.len(),
            found == contains_flag(args.deep_view().take(i as int), flag@),
            rest.deep_view() == without_flag(args.deep_view().take(i as int), flag@),
        decreases args@.len() - i,
    {
        let ghost deep = args.deep_view();
        proof {
            assert(deep.take(i + 1).drop_last() =~= deep.take(i as int));
            assert(deep.take(i + 1).last() == deep[i as int]);
            assert(deep[i as int] == args@[i as int]@);
        }
        if str_eq(args[i].as_str(), flag) {
            found = true;
            proof {
                assert(rest.deep_view() + Seq::<Seq<char>>::empty() =~= rest.deep_view());
            }
        } else {
            let ghost rest_pre = rest.deep_view();
            rest.push(args[i].clone());
            proof {
                assert(rest.deep_view() =~= rest_pre + seq![deep[i as int]]);
            }
        }
        i += 1;
    }
    proof {
        assert(args.deep_view().take(args@.len() as int) =~= args.deep_view());
    }
    (found, rest)
}

} // verus!
