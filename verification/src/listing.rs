//! The directory-listing rendering engine: display flags, per-entry metadata
//! snapshots, permission decoding, colorization, sorting and layout.
//!
//! The engine is pure: the caller enumerates the directory and takes a
//! point-in-time metadata snapshot of each entry (resolving owner and group
//! names as it goes, falling back to `unknown`), and the functions here turn
//! that snapshot into the exact text block a listing prints.
use vstd::prelude::*;
use vstd::multiset::Multiset;

use crate::calendar::time_string_spec;
use crate::calendar::format_time;
use crate::text::dec_spec;
use crate::text::lex_le;
use crate::text::pad_left_spec;
use crate::text::pad_left;
use crate::text::pad_right_spec;
use crate::text::pad_right;
use crate::text::push_char;
use crate::text::str_eq;
use crate::text::u64_to_dec;

verus! {

/// The display flags a listing accepts, each independent.
#[derive(Clone, Copy, Debug, PartialEq, Eq, Structural)]
pub struct Flags {
    /// `-a`: list hidden entries too, and the `.`/`..` pseudo-entries.
    pub show_all: bool,
    /// `-l`: one entry per line with a metadata prefix and a `total` line.
    pub long_format: bool,
    /// `-F`: append `/`, `*` or `@` after directories, executables, symlinks.
    pub show_file_type: bool,
}

/// A modification instant, as far as the filesystem reported one.
#[derive(Clone, Copy, Debug, PartialEq, Eq, Structural)]
pub enum MTime {
    /// The filesystem could not report a modification time at all.
    Unavailable,
    /// The reported time lies before the epoch.
    Invalid,
    /// Whole seconds since the epoch.
    At(u64),
}

/// A point-in-time metadata snapshot of one directory entry, with owner and
/// group already resolved to names (`unknown` where resolution failed).
pub struct EntryMeta {
    pub is_dir: bool,
    pub is_file: bool,
    pub is_symlink: bool,
    /// Permission and mode bits.
    pub mode: u32,
    /// Hard-link count.
    pub nlink: u64,
    /// Size in bytes.
    pub size: u64,
    /// Allocated 512-byte block count.
    pub blocks: u64,
    pub modified: MTime,
    pub owner: String,
    pub group: String,
}

/// A directory entry: its name, and its metadata where reading it succeeded.
pub struct Entry {
    pub name: String,
    pub meta: Option<EntryMeta>,
}

/// The color that opens an entry name: directories, then entries with any
/// executable bit, then symbolic links, everything else unstyled.
pub open spec fn color_of(m: EntryMeta) -> Seq<char> {
    if m.is_dir {
        "\u{1b}[35m"@
    } else if m.mode & 0o111 != 0 {
        "\u{1b}[33m"@
    } else if m.is_symlink {
        "\u{1b}[36m"@
    } else {
        "\u{1b}[0m"@
    }
}

/// An entry name with its type suffix (`/`, `*`, `@`), colored; a plain file
/// stays bare.
pub open spec fn typed_name_spec(m: EntryMeta, name: Seq<char>) -> Seq<char> {
    if m.is_dir {
        "\u{1b}[35m"@ + name + "/"@ + "\u{1b}[0m"@
    } else if m.mode & 0o111 != 0 {
        "\u{1b}[33m"@ + name + "*"@ + "\u{1b}[0m"@
    } else if m.is_symlink {
        "\u{1b}[36m"@ + name + "@"@ + "\u{1b}[0m"@
    } else {
        name
    }
}

/// An entry name colored by class and reset afterwards; without metadata the
/// name carries no opening color, only the reset.
pub open spec fn colored_name_spec(m_opt: Option<EntryMeta>, name: Seq<char>) -> Seq<char> {
    match m_opt {
        Option::Some(m) => color_of(m) + name + "\u{1b}[0m"@,
        Option::None => name + "\u{1b}[0m"@,
    }
}

/// How an entry's name appears under the given flags.
pub open spec fn rendered_name_spec(flags: Flags, e: Entry) -> Seq<char> {
    if flags.show_file_type {
        match e.meta {
            Option::Some(m) => typed_name_spec(m, e.name@),
            Option::None => e.name@ + "\u{1b}[0m"@,
        }
    } else {
        colored_name_spec(e.meta, e.name@)
    }
}

/// The ten-character permission string: type, then read/write/execute for
/// owner, group and others.
pub open spec fn perm_string_spec(is_dir: bool, is_file: bool, mode: u32) -> Seq<char> {
    seq![
        if is_dir {
            'd'
        } else if is_file {
            '-'
        } else {
            '?'
        },
        if mode & 0o400 != 0 {
            'r'
        } else {
            '-'
        },
        if mode & 0o200 != 0 {
            'w'
        } else {
            '-'
        },
        if mode & 0o100 != 0 {
            'x'
        } else {
            '-'
        },
        if mode & 0o040 != 0 {
            'r'
        } else {
            '-'
        },
        if mode & 0o020 != 0 {
            'w'
        } else {
            '-'
        },
        if mode & 0o010 != 0 {
            'x'
        } else {
            '-'
        },
        if mode & 0o004 != 0 {
            'r'
        } else {
            '-'
        },
        if mode & 0o002 != 0 {
            'w'
        } else {
            '-'
        },
        if mode & 0o001 != 0 {
            'x'
        } else {
            '-'
        },
    ]
}

/// Decodes permission bits into the ten-character string, testing each bit.
#[verifier::rlimit(50)]
pub fn format_permissions(is_dir: bool, is_file: bool, mode: u32) -> (r: String)
    ensures
        r@ == perm_string_spec(is_dir, is_file, mode),
{
    let mut s = String::new();
    push_char(&mut s, if is_dir { 'd' } else if is_file { '-' } else { '?' });
    push_char(&mut s, if mode & 0o400 != 0 { 'r' } else { '-' });
    push_char(&mut s, if mode & 0o200 != 0 { 'w' } else { '-' });
    push_char(&mut s, if mode & 0o100 != 0 { 'x' } else { '-' });
    push_char(&mut s, if mode & 0o040 != 0 { 'r' } else { '-' });
    push_char(&mut s, if mode & 0o020 != 0 { 'w' } else { '-' });
    push_char(&mut s, if mode & 0o010 != 0 { 'x' } else { '-' });
    push_char(&mut s, if mode & 0o004 != 0 { 'r' } else { '-' });
    push_char(&mut s, if mode & 0o002 != 0 { 'w' } else { '-' });
    push_char(&mut s, if mode & 0o001 != 0 { 'x' } else { '-' });
    proof {
        assert(s@ =~= perm_string_spec(is_dir, is_file, mode));
    }
    s
}

/// The modification-time field of a long listing line.
pub open spec fn time_field_spec(t: MTime) -> Seq<char> {
    match t {
        MTime::Unavailable => "unknown"@,
        MTime::Invalid => "date invalide"@,
        MTime::At(s) => time_string_spec(s as nat),
    }
}

/// The fixed-width metadata prefix of a long listing line: permissions, link
/// count, owner and group, size, modification time, each followed by a space.
pub open spec fn meta_prefix_spec(m: EntryMeta) -> Seq<char> {
    perm_string_spec(m.is_dir, m.is_file, m.mode) + " "@ + dec_spec(m.nlink as nat) + " "@
        + pad_right_spec(m.owner@ + " "@ + m.group@, 8) + " "@ + pad_left_spec(
        dec_spec(m.size as nat),
        5,
    ) + " "@ + time_field_spec(m.modified) + " "@
}

/// Renders the metadata prefix of one long listing line.
pub fn print_metadata(m: &EntryMeta) -> (r: String)
    ensures
        r@ == meta_prefix_spec(*m),
{
    let mut og = String::new();
    og.append(m.owner.as_str());
    og.append(" ");
    og.append(m.group.as_str());

    let mut s = format_permissions(m.is_dir, m.is_file, m.mode);
    s.append(" ");
    s.append(u64_to_dec(m.nlink).as_str());
    s.append(" ");
    s.append(pad_right(og, 8).as_str());
    s.append(" ");
    s.append(pad_left(u64_to_dec(m.size), 5).as_str());
    s.append(" ");
    match &m.modified {
        MTime::Unavailable => s.append("unknown"),
        MTime::Invalid => s.append("date invalide"),
        MTime::At(secs) => s.append(format_time(*secs).as_str()),
    }
    s.append(" ");
    proof {
        assert(s@ =~= meta_prefix_spec(*m));
    }
    s
}

/// Folds one argument token into the flags accumulated so far; the first
/// unrecognized token aborts with itself as the error.
pub open spec fn flags_acc_spec(args: Seq<Seq<char>>, acc: Flags) -> Result<Flags, Seq<char>>
    decreases args.len(),
{
    if args.len() == 0 {
        Result::Ok(acc)
    } else if args[0] == "-a"@ {
        flags_acc_spec(args.drop_first(), Flags { show_all: true, ..acc })
    } else if args[0] == "-l"@ {
        flags_acc_spec(args.drop_first(), Flags { long_format: true, ..acc })
    } else if args[0] == "-F"@ {
        flags_acc_spec(args.drop_first(), Flags { show_file_type: true, ..acc })
    } else {
        Result::Err(args[0])
    }
}

/// The flags a listing's argument tokens denote, or the first invalid one.
pub open spec fn parse_flags_spec(args: Seq<Seq<char>>) -> Result<Flags, Seq<char>> {
    flags_acc_spec(
        args,
        Flags { show_all: false, long_format: false, show_file_type: false },
    )
}

/// Validates argument tokens before any entry is examined. An unrecognized
/// token yields the `invalid option` diagnostic naming that token, and the
/// listing produces no output.
pub fn parse_flags(args: &Vec<String>) -> (r: Result<Flags, String>)
    ensures
        match parse_flags_spec(args.deep_view()) {
            Result::Ok(f) => r == Result::<Flags, String>::Ok(f),
            Result::Err(bad) => r is Err && r->Err_0@ == "ls: invalid option -- '"@ + bad + "'"@,
        },
{
    let mut f = Flags { show_all: false, long_format: false, show_file_type: false };
    let mut i: usize = 0;
    proof {
        assert(args.deep_view().skip(0) =~= args.deep_view());
    }
    while i < args.len()
        invariant
            i <= args.len(),
            args.deep_view().len() == args@.len(),
            parse_flags_spec(args.deep_view()) == flags_acc_spec(args.deep_view().skip(i as int), f),
        decreases args.len() - i,
    {
        let ghost pre = args.deep_view().skip(i as int);
        proof {
            assert(pre[0] == args.deep_view()[i as int]);
            assert(args.deep_view()[i as int] == args@[i as int]@);
            assert(pre.drop_first() =~= args.deep_view().skip(i + 1));
        }
        let a = &args[i];
        if str_eq(a.as_str(), "-a") {
            f = Flags { show_all: true, ..f };
        } else if str_eq(a.as_str(), "-l") {
            f = Flags { long_format: true, ..f };
        } else if str_eq(a.as_str(), "-F") {
            f = Flags { show_file_type: true, ..f };
        } else {
            let mut msg = String::from_str("ls: invalid option -- '");
            msg.append(a.as_str());
            msg.append("'");
            return Result::Err(msg);
        }
        i += 1;
    }
    proof {
        assert(args.deep_view().skip(args@.len() as int).len() == 0);
    }
    Result::Ok(f)
}

/// Whether a name is hidden: it begins with a dot.
pub open spec fn is_hidden(name: Seq<char>) -> bool {
    name.len() > 0 && name[0] == '.'
}

/// The text fragment one entry contributes to the listing: nothing when the
/// entry is hidden and hidden entries are suppressed; otherwise the metadata
/// prefix (long format, metadata available), the rendered name, and the
/// separator (newline in long format, two spaces in short format).
pub open spec fn entry_line_spec(flags: Flags, e: Entry) -> Seq<char> {
    if !flags.show_all && is_hidden(e.name@) {
        Seq::<char>::empty()
    } else {
        (if flags.long_format {
            match e.meta {
                Option::Some(m) => meta_prefix_spec(m),
                Option::None => Seq::<char>::empty(),
            }
        } else {
            Seq::<char>::empty()
        }) + rendered_name_spec(flags, e) + (if flags.long_format {
            "\n"@
        } else {
            "  "@
        })
    }
}

/// The block count one entry contributes to the `total` line: its allocated
/// block count halved, counted only for entries actually listed in long
/// format with readable metadata.
pub open spec fn entry_blocks_spec(flags: Flags, e: Entry) -> nat {
    if !flags.show_all && is_hidden(e.name@) {
        0
    } else if flags.long_format {
        match e.meta {
            Option::Some(m) => (m.blocks / 2) as nat,
            Option::None => 0,
        }
    } else {
        0
    }
}

/// The fragments of all entries, in the order given, concatenated.
pub open spec fn body_spec(flags: Flags, s: Seq<Entry>) -> Seq<char>
    decreases s.len(),
{
    if s.len() == 0 {
        Seq::<char>::empty()
    } else {
        body_spec(flags, s.drop_last()) + entry_line_spec(flags, s.last())
    }
}

/// The sum of the block counts of all listed entries, in order.
pub open spec fn body_blocks_spec(flags: Flags, s: Seq<Entry>) -> nat
    decreases s.len(),
{
    if s.len() == 0 {
        0
    } else {
        body_blocks_spec(flags, s.drop_last()) + entry_blocks_spec(flags, s.last())
    }
}

/// The line a `.` or `..` pseudo-entry contributes in long format: metadata
/// prefix, the colored name with an optional directory suffix, a newline.
/// Nothing when its metadata could not be read.
pub open spec fn dot_line_spec(m_opt: Option<EntryMeta>, show_file_type: bool, parent: bool) -> Seq<
    char,
> {
    match m_opt {
        Option::Some(m) => meta_prefix_spec(m) + (if parent {
            if show_file_type {
                "\u{1b}[35m../\u{1b}[0m\n"@
            } else {
                "\u{1b}[35m..\u{1b}[0m\n"@
            }
        } else {
            if show_file_type {
                "\u{1b}[35m./\u{1b}[0m\n"@
            } else {
                "\u{1b}[35m.\u{1b}[0m\n"@
            }
        }),
        Option::None => Seq::<char>::empty(),
    }
}

/// The blocks a `.` or `..` pseudo-entry contributes.
pub open spec fn dot_blocks_spec(m_opt: Option<EntryMeta>) -> nat {
    match m_opt {
        Option::Some(m) => (m.blocks / 2) as nat,
        Option::None => 0,
    }
}

/// What precedes the sorted entries: with hidden entries shown, either the
/// two pseudo-entry lines (long format) or the fixed `.`/`..` pair (short).
pub open spec fn header_spec(
    flags: Flags,
    dot: Option<EntryMeta>,
    dotdot: Option<EntryMeta>,
) -> Seq<char> {
    if flags.show_all {
        if flags.long_format {
            dot_line_spec(dot, flags.show_file_type, false) + dot_line_spec(
                dotdot,
                flags.show_file_type,
                true,
            )
        } else {
            "\u{1b}[35m.  ..\u{1b}[0m  "@
        }
    } else {
        Seq::<char>::empty()
    }
}

/// The blocks the pseudo-entries contribute, counted only when both shown
/// and in long format.
pub open spec fn header_blocks_spec(
    flags: Flags,
    dot: Option<EntryMeta>,
    dotdot: Option<EntryMeta>,
) -> nat {
    if flags.show_all && flags.long_format {
        dot_blocks_spec(dot) + dot_blocks_spec(dotdot)
    } else {
        0
    }
}

/// The `total` a long listing reports: the sum of the block counts of every
/// listed entry, pseudo-entries included.
pub open spec fn listing_total_spec(
    flags: Flags,
    dot: Option<EntryMeta>,
    dotdot: Option<EntryMeta>,
    s: Seq<Entry>,
) -> nat {
    header_blocks_spec(flags, dot, dotdot) + body_blocks_spec(flags, s)
}

/// The complete output block of a listing over the entries in the order
/// given: in long format a leading `total` line then one line per entry; in
/// short format the entries separated by two spaces with a trailing newline.
pub open spec fn listing_spec(
    flags: Flags,
    dot: Option<EntryMeta>,
    dotdot: Option<EntryMeta>,
    s: Seq<Entry>,
) -> Seq<char> {
    let body = header_spec(flags, dot, dotdot) + body_spec(flags, s);
    if flags.long_format {
        "total "@ + dec_spec(listing_total_spec(flags, dot, dotdot, s)) + "\n"@ + body
    } else {
        body + "\n"@
    }
}

/// A long listing always opens with a `total` line reporting exactly the sum
/// of the listed entries' block counts, before any entry appears.
pub proof fn lemma_long_listing_reports_total(
    flags: Flags,
    dot: Option<EntryMeta>,
    dotdot: Option<EntryMeta>,
    s: Seq<Entry>,
)
    requires
        flags.long_format,
    ensures
        listing_spec(flags, dot, dotdot, s) == "total "@ + dec_spec(
            header_blocks_spec(flags, dot, dotdot) + body_blocks_spec(flags, s),
        ) + "\n"@ + header_spec(flags, dot, dotdot) + body_spec(flags, s),
{
}

/// With hidden entries suppressed, an entry whose name begins with a dot
/// contributes nothing to the listing: no text, and no blocks to the total.
pub proof fn lemma_hidden_entry_invisible(flags: Flags, e: Entry)
    requires
        !flags.show_all,
        is_hidden(e.name@),
    ensures
        entry_line_spec(flags, e) == Seq::<char>::empty(),
        entry_blocks_spec(flags, e) == 0,
{
}

/// Entries sorted by name, byte-lexicographically.
pub open spec fn sorted_by_name(s: Seq<Entry>) -> bool {
    forall|i: int, j: int| 0 <= i < j < s.len() ==> lex_le(s[i].name@, s[j].name@)
}

/// Places one entry into a name-sorted vector, keeping it sorted.
fn insert_sorted(out: &mut Vec<Entry>, e: Entry)
    requires
        sorted_by_name(old(out)@),
    ensures
        sorted_by_name(final(out)@),
        final(out)@.to_multiset() == old(out)@.to_multiset().insert(e),
{
    broadcast use vstd::seq_lib::group_to_multiset_ensures;
    broadcast use vstd::multiset::group_multiset_axioms;

    let mut j: usize = 0;
    while j < out.len() && crate::text::str_lex_le(out[j].name.as_str(), e.name.as_str())
        invariant
            j <= out@.len(),
            sorted_by_name(out@),
            forall|k: int| 0 <= k < j ==> lex_le(out@[k].name@, e.name@),
        decreases out@.len() - j,
    {
        j += 1;
    }
    proof {
        if j < out@.len() {
            crate::text::lemma_lex_le_total(out@[j as int].name@, e.name@);
            assert forall|k: int| j <= k < out@.len() implies lex_le(e.name@, out@[k].name@) by {
                if k > j {
                    crate::text::lemma_lex_le_trans(e.name@, out@[j as int].name@, out@[k].name@);
                }
            }
        }
    }
    let ghost pre = out@;
    out.insert(j, e);
    proof {
        pre.insert_ensures(j as int, e);
        assert forall|a: int, b: int| 0 <= a < b < out@.len() implies lex_le(
            out@[a].name@,
            out@[b].name@,
        ) by {
            if a < j && b < j {
                assert(out@[a] == pre[a]);
                assert(out@[b] == pre[b]);
            } else if a < j && b == j {
                assert(out@[a] == pre[a]);
            } else if a < j && b > j {
                assert(out@[a] == pre[a]);
                assert(out@[b] == pre[b - 1]);
            } else if a == j && b > j {
                assert(out@[b] == pre[b - 1]);
            } else if a > j && b > j {
                assert(out@[a] == pre[a - 1]);
                assert(out@[b] == pre[b - 1]);
            }
        }
    }
}

/// Sorts directory entries by name, byte-lexicographically; the result holds
/// exactly the entries given.
pub fn sort_entries(entries: Vec<Entry>) -> (r: Vec<Entry>)
    ensures
        sorted_by_name(r@),
        r@.to_multiset() == entries@.to_multiset(),
{
    broadcast use vstd::seq_lib::group_to_multiset_ensures;
    broadcast use vstd::multiset::group_multiset_axioms;

    let ghost all = entries@;
    let mut rest = entries;
    let mut out: Vec<Entry> = Vec::new();
    while rest.len() > 0
        invariant
            sorted_by_name(out@),
            out@.to_multiset().add(rest@.to_multiset()) == all.to_multiset(),
        decreases rest@.len(),
    {
        let ghost pre = rest@;
        let e = rest.remove(0);
        proof {
            assert(pre.len() > 0);
            vstd::seq_lib::to_multiset_remove(pre, 0);
            assert(pre.contains(pre[0])) by {
                assert(0 <= 0 < pre.len() && pre[0] == pre[0]);
            }
            vstd::seq_lib::to_multiset_contains(pre, pre[0]);
            assert(pre.to_multiset().count(pre[0]) > 0);
            assert(pre.to_multiset().remove(pre[0]).insert(pre[0]) =~= pre.to_multiset());
        }
        let ghost out_pre = out@;
        insert_sorted(&mut out, e);
        proof {
            assert(out@.to_multiset().add(rest@.to_multiset()) =~= all.to_multiset());
        }
    }
    proof {
        assert(rest@.to_multiset() =~= Multiset::<Entry>::empty());
        assert(out@.to_multiset().add(Multiset::<Entry>::empty()) =~= out@.to_multiset());
    }
    out
}

/// The color that opens this entry's name.
fn right_color(m: &EntryMeta) -> (r: &'static str)
    ensures
        r@ == color_of(*m),
{
    if m.is_dir {
        "\u{1b}[35m"
    } else if m.mode & 0o111 != 0 {
        "\u{1b}[33m"
    } else if m.is_symlink {
        "\u{1b}[36m"
    } else {
        "\u{1b}[0m"
    }
}

/// Renders a name with its type suffix, colored by class.
pub fn print_file_type(m: &EntryMeta, name: &str) -> (r: String)
    ensures
        r@ == typed_name_spec(*m, name@),
{
    if m.is_dir {
        let mut s = String::from_str("\u{1b}[35m");
        s.append(name);
        s.append("/");
        s.append("\u{1b}[0m");
        s
    } else if m.mode & 0o111 != 0 {
        let mut s = String::from_str("\u{1b}[33m");
        s.append(name);
        s.append("*");
        s.append("\u{1b}[0m");
        s
    } else if m.is_symlink {
        let mut s = String::from_str("\u{1b}[36m");
        s.append(name);
        s.append("@");
        s.append("\u{1b}[0m");
        s
    } else {
        String::from_str(name)
    }
}

/// Whether this name begins with a dot.
fn hidden_name(name: &str) -> (r: bool)
    ensures
        r == is_hidden(name@),
{
    if name.unicode_len() == 0 {
        false
    } else {
        name.get_char(0) == '.'
    }
}

/// The text fragment one entry contributes to the listing.
fn entry_line(flags: Flags, e: &Entry) -> (r: String)
    ensures
        r@ == entry_line_spec(flags, *e),
{
    if !flags.show_all && hidden_name(e.name.as_str()) {
        let s = String::new();
        proof {
            assert(s@ =~= entry_line_spec(flags, *e));
        }
        s
    } else {
        let mut s = String::new();
        if flags.long_format {
            match &e.meta {
                Option::Some(m) => s.append(print_metadata(m).as_str()),
                Option::None => (),
            }
        }
        if flags.show_file_type {
            match &e.meta {
                Option::Some(m) => s.append(print_file_type(m, e.name.as_str()).as_str()),
                Option::None => {
                    s.append(e.name.as_str());
                    s.append("\u{1b}[0m");
                },
            }
        } else {
            match &e.meta {
                Option::Some(m) => {
                    s.append(right_color(m));
                    s.append(e.name.as_str());
                    s.append("\u{1b}[0m");
                },
                Option::None => {
                    s.append(e.name.as_str());
                    s.append("\u{1b}[0m");
                },
            }
        }
        if flags.long_format {
            s.append("\n");
        } else {
            s.append("  ");
        }
        proof {
            assert(s@ =~= entry_line_spec(flags, *e));
        }
        s
    }
}

/// The block count one entry contributes to the `total` line.
fn entry_blocks(flags: Flags, e: &Entry) -> (r: u64)
    ensures
        r as nat == entry_blocks_spec(flags, *e),
{
    if !flags.show_all && hidden_name(e.name.as_str()) {
        0
    } else if flags.long_format {
        match &e.meta {
            Option::Some(m) => m.blocks / 2,
            Option::None => 0,
        }
    } else {
        0
    }
}

/// Extending the rendered prefix by one entry appends that entry's fragment
/// and adds its block count.
proof fn lemma_body_take_step(flags: Flags, s: Seq<Entry>, i: int)
    requires
        0 <= i < s.len(),
    ensures
        body_spec(flags, s.take(i + 1)) == body_spec(flags, s.take(i)) + entry_line_spec(
            flags,
            s[i],
        ),
        body_blocks_spec(flags, s.take(i + 1)) == body_blocks_spec(flags, s.take(i))
            + entry_blocks_spec(flags, s[i]),
{
    assert(s.take(i + 1).drop_last() =~= s.take(i));
    assert(s.take(i + 1).last() == s[i]);
}

/// A prefix of the entries never accounts more blocks than all of them.
proof fn lemma_body_blocks_prefix_le(flags: Flags, s: Seq<Entry>, i: int)
    requires
        0 <= i <= s.len(),
    ensures
        body_blocks_spec(flags, s.take(i)) <= body_blocks_spec(flags, s),
    decreases s.len() - i,
{
    if i == s.len() {
        assert(s.take(i) =~= s);
    } else {
        lemma_body_take_step(flags, s, i);
        lemma_body_blocks_prefix_le(flags, s, i + 1);
    }
}

/// Renders the complete listing of the entries, in the order given, under
/// the given flags, with the metadata of `.` and `..` supplied for the
/// pseudo-entries when hidden entries are shown in long format. The output
/// is exactly `listing_spec`; in long format it opens with the `total` line.
pub fn render_sorted(
    flags: Flags,
    dot: &Option<EntryMeta>,
    dotdot: &Option<EntryMeta>,
    entries: &Vec<Entry>,
) -> (r: String)
    requires
        listing_total_spec(flags, *dot, *dotdot, entries@) <= u64::MAX,
    ensures
        r@ == listing_spec(flags, *dot, *dotdot, entries@),
{
    let mut result = String::new();
    let mut total: u64 = 0;
    if flags.show_all {
        if flags.long_format {
            match dot {
                Option::Some(m) => {
                    result.append(print_metadata(m).as_str());
                    if flags.show_file_type {
                        result.append("\u{1b}[35m./\u{1b}[0m\n");
                    } else {
                        result.append("\u{1b}[35m.\u{1b}[0m\n");
                    }
                    total = total + m.blocks / 2;
                },
                Option::None => (),
            }
            match dotdot {
                Option::Some(m) => {
                    result.append(print_metadata(m).as_str());
                    if flags.show_file_type {
                        result.append("\u{1b}[35m../\u{1b}[0m\n");
                    } else {
                        result.append("\u{1b}[35m..\u{1b}[0m\n");
                    }
                    total = total + m.blocks / 2;
                },
                Option::None => (),
            }
        } else {
            result.append("\u{1b}[35m.  ..\u{1b}[0m  ");
        }
    }
    proof {
        assert(result@ =~= header_spec(flags, *dot, *dotdot));
        assert(total as nat == header_blocks_spec(flags, *dot, *dotdot));
        assert(entries@.take(0) =~= Seq::<Entry>::empty());
    }
    let mut i: usize = 0;
    while i < entries.len()
        invariant
            i <= entries@.len(),
            listing_total_spec(flags, *dot, *dotdot, entries@) <= u64::MAX,
            result@ == header_spec(flags, *dot, *dotdot) + body_spec(
                flags,
                entries@.take(i as int),
            ),
            total as nat == header_blocks_spec(flags, *dot, *dotdot) + body_blocks_spec(
                flags,
                entries@.take(i as int),
            ),
        decreases entries@.len() - i,
    {
        proof {
            lemma_body_take_step(flags, entries@, i as int);
            lemma_body_blocks_prefix_le(flags, entries@, i + 1);
        }
        let e = &entries[i];
        result.append(entry_line(flags, e).as_str());
        total = total + entry_blocks(flags, e);
        i += 1;
    }
    proof {
        assert(entries@.take(entries@.len() as int) =~= entries@);
    }
    if flags.long_format {
        let mut out = String::from_str("total ");
        out.append(u64_to_dec(total).as_str());
        out.append("\n");
        out.append(result.as_str());
        proof {
            assert(out@ =~= listing_spec(flags, *dot, *dotdot, entries@));
        }
        out
    } else {
        result.append("\n");
        proof {
            assert(result@ =~= listing_spec(flags, *dot, *dotdot, entries@));
        }
        result
    }
}

} // verus!
