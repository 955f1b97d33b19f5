//! Rendering the entries of one directory.
//!
//! The short format shows the names. The long format shows one line of
//! columns for each entry whose metadata is at hand: type and permissions,
//! link count, owner, group, size, modification stamp and name. The widths of
//! the four middle columns are measured over the whole directory first, so
//! that every line of one directory has its columns at the same offsets.

use vstd::prelude::*;
use vstd::string::StringExecFns;
use crate::text::byte_count;
use crate::text::byte_width;
use crate::text::decimal;
use crate::text::decimal_string;
use crate::text::lemma_chars_within_bytes;
use crate::text::lemma_padded_len;
use crate::text::pad_end;
use crate::text::pad_left;
use crate::text::pad_right;
use crate::text::pad_start;
use crate::ls::args::LsArgs;
use crate::ls::entry::Entry;
use crate::ls::entry::EntryModel;
use crate::ls::entry::MetadataModel;
use crate::ls::entry::MetadataSnapshot;
use crate::ls::entry::text_model;
use crate::ls::owner::group_text;
use crate::ls::owner::owner_text;
use crate::ls::owner::resolve_identity;
use crate::ls::size::bytes_to_human_readable;
use crate::ls::size::human_readable;
use crate::ls::stamp::stamp_for;
use crate::ls::stamp::stamp_text;

verus! {

/// The four columns whose width depends on the directory.
#[derive(Clone, Copy, Debug, PartialEq, Eq, Structural)]
pub enum Column {
    Links,
    Owner,
    Group,
    Size,
}

/// The widths of the four measured columns, for one directory.
#[derive(Clone, Copy, Debug, PartialEq, Eq, Structural)]
pub struct ColumnWidths {
    pub max_nlink_len: usize,
    pub max_user_len: usize,
    pub max_group_len: usize,
    pub max_size_len: usize,
}

/// The mathematical model of [`ColumnWidths`].
pub struct WidthsModel {
    pub links: nat,
    pub owner: nat,
    pub group: nat,
    pub size: nat,
}

impl WidthsModel {
    /// The width of `column`.
    pub open spec fn of(self, column: Column) -> nat {
        match column {
            Column::Links => self.links,
            Column::Owner => self.owner,
            Column::Group => self.group,
            Column::Size => self.size,
        }
    }

    /// The offset just behind `column` in a line, where the blank stands that
    /// closes it. Ten characters of type and permissions and one blank come
    /// before the first column.
    pub open spec fn end_of(self, column: Column) -> int {
        match column {
            Column::Links => (11 + self.links) as int,
            Column::Owner => (12 + self.links + self.owner) as int,
            Column::Group => (13 + self.links + self.owner + self.group) as int,
            Column::Size => (14 + self.links + self.owner + self.group + self.size) as int,
        }
    }
}

impl View for ColumnWidths {
    type V = WidthsModel;

    open spec fn view(&self) -> WidthsModel {
        WidthsModel {
            links: self.max_nlink_len as nat,
            owner: self.max_user_len as nat,
            group: self.max_group_len as nat,
            size: self.max_size_len as nat,
        }
    }
}

/// The type character: `d` for a directory, `l` for a symbolic link, `-`
/// for anything else.
pub open spec fn type_char(e: EntryModel) -> char {
    if e.is_dir {
        'd'
    } else if e.is_symlink {
        'l'
    } else {
        '-'
    }
}

/// `letter` where `mode` has a bit of `mask`, a dash where it has none.
pub open spec fn flag_char(mode: u32, mask: u32, letter: char) -> char {
    if mode & mask != 0 {
        letter
    } else {
        '-'
    }
}

/// The nine permission characters: read, write and execute for the owner,
/// the group and the others.
pub open spec fn permission_text(mode: u32) -> Seq<char> {
    seq![
        flag_char(mode, 0o400, 'r'),
        flag_char(mode, 0o200, 'w'),
        flag_char(mode, 0o100, 'x'),
        flag_char(mode, 0o040, 'r'),
        flag_char(mode, 0o020, 'w'),
        flag_char(mode, 0o010, 'x'),
        flag_char(mode, 0o004, 'r'),
        flag_char(mode, 0o002, 'w'),
        flag_char(mode, 0o001, 'x'),
    ]
}

/// The size column: the plain number of bytes, or its human-readable form.
pub open spec fn size_text(size: u64, human: bool) -> Seq<char> {
    if human {
        human_readable(size as nat)
    } else {
        decimal(size as nat)
    }
}

/// What `column` shows of an entry with the metadata `m`.
pub open spec fn field_text(m: MetadataModel, column: Column, human: bool) -> Seq<char> {
    match column {
        Column::Links => decimal(m.nlink as nat),
        Column::Owner => owner_text(m),
        Column::Group => group_text(m),
        Column::Size => size_text(m.size, human),
    }
}

/// The width of `column` for `entries`: the greatest number of bytes that
/// the column takes for any entry with metadata, and 0 where there is none.
pub open spec fn max_width(entries: Seq<EntryModel>, column: Column, human: bool) -> nat
    decreases entries.len(),
{
    if entries.len() == 0 {
        0
    } else {
        let rest = max_width(entries.drop_last(), column, human);
        match entries.last().metadata {
            Some(m) => if byte_width(field_text(m, column, human)) > rest {
                byte_width(field_text(m, column, human))
            } else {
                rest
            },
            None => rest,
        }
    }
}

/// The widths of the four columns for `entries`.
pub open spec fn widths_of(entries: Seq<EntryModel>, human: bool) -> WidthsModel {
    WidthsModel {
        links: max_width(entries, Column::Links, human),
        owner: max_width(entries, Column::Owner, human),
        group: max_width(entries, Column::Group, human),
        size: max_width(entries, Column::Size, human),
    }
}

/// The storage of the entries with metadata, in units of 512 bytes.
pub open spec fn block_total(entries: Seq<EntryModel>) -> nat
    decreases entries.len(),
{
    if entries.len() == 0 {
        0
    } else {
        block_total(entries.drop_last()) + match entries.last().metadata {
            Some(m) => m.block_count as nat,
            None => 0,
        }
    }
}

/// The summary line of a directory: its storage in units of 1024 bytes,
/// half the number of 512-byte blocks, rounded down.
pub open spec fn total_line(entries: Seq<EntryModel>) -> Seq<char> {
    "total "@ + decimal(block_total(entries) / 2)
}

/// The long-format line of the entry `e` with the metadata `m`, in columns
/// of the widths `w` and with the modification stamp `stamp`.
pub open spec fn long_line(
    e: EntryModel,
    m: MetadataModel,
    w: WidthsModel,
    human: bool,
    stamp: Seq<char>,
) -> Seq<char> {
    seq![type_char(e)] + permission_text(m.mode) + seq![' '] + pad_left(
        field_text(m, Column::Links, human),
        w.links,
    ) + seq![' '] + pad_right(field_text(m, Column::Owner, human), w.owner) + seq![' ']
        + pad_right(field_text(m, Column::Group, human), w.group) + seq![' '] + pad_left(
        field_text(m, Column::Size, human),
        w.size,
    ) + seq![' '] + stamp + seq![' '] + e.display_name
}

/// The long-format line of `e`, if it has one: an entry without metadata has
/// none, nor has one whose modification time is no calendar time.
pub open spec fn rendered_line(e: EntryModel, w: WidthsModel, human: bool, current_year: i32)
    -> Option<Seq<char>> {
    match e.metadata {
        Some(m) => match stamp_text(m.modified_time.local, current_year) {
            Some(stamp) => Some(long_line(e, m, w, human, stamp)),
            None => None,
        },
        None => None,
    }
}

/// [`rendered_line`] as a function of the entry.
pub open spec fn rendering(w: WidthsModel, human: bool, current_year: i32) -> spec_fn(
    EntryModel,
) -> Option<Seq<char>> {
    |e: EntryModel| rendered_line(e, w, human, current_year)
}

/// The long-format lines of a directory, in the order of `entries`.
pub open spec fn long_lines(entries: Seq<EntryModel>, human: bool, current_year: i32) -> Seq<
    Seq<char>,
> {
    entries.filter_map(rendering(widths_of(entries, human), human, current_year))
}

/// The short-format lines of a directory: the names, in the order of
/// `entries`.
pub open spec fn short_lines(entries: Seq<EntryModel>) -> Seq<Seq<char>> {
    entries.map_values(|e: EntryModel| e.display_name)
}

/// The lines that show the entries of a directory.
pub open spec fn entry_lines(entries: Seq<EntryModel>, args: LsArgs, current_year: i32) -> Seq<
    Seq<char>,
> {
    if args.long {
        long_lines(entries, args.human_readable, current_year)
    } else {
        short_lines(entries)
    }
}

/// The header of a directory in a recursive listing: its path and a colon,
/// behind an empty line for every directory but the first.
pub open spec fn header_lines(path: Seq<char>, recursive: bool, depth: nat) -> Seq<Seq<char>> {
    if !recursive {
        seq![]
    } else if depth == 0 {
        seq![path + seq![':']]
    } else {
        seq![Seq::empty(), path + seq![':']]
    }
}

/// The summary of a directory in long format: one line at the top level,
/// and at every level of a recursive listing.
pub open spec fn summary_lines(entries: Seq<EntryModel>, args: LsArgs, depth: nat) -> Seq<
    Seq<char>,
> {
    if args.long && (depth == 0 || args.recursive) {
        seq![total_line(entries)]
    } else {
        seq![]
    }
}

/// Everything that is printed for one directory, whose ordered entries are
/// `entries`: header, summary and entries.
pub open spec fn level_lines(
    path: Seq<char>,
    entries: Seq<EntryModel>,
    args: LsArgs,
    depth: nat,
    current_year: i32,
) -> Seq<Seq<char>> {
    header_lines(path, args.recursive, depth) + summary_lines(entries, args, depth) + entry_lines(
        entries,
        args,
        current_year,
    )
}

/// Every field of an entry of the directory fits its column: it has at most
/// as many characters as the column is wide.
pub proof fn lemma_widths_cover(entries: Seq<EntryModel>, column: Column, human: bool, i: int)
    requires
        0 <= i < entries.len(),
        entries[i].metadata is Some,
    ensures
        field_text(entries[i].metadata->0, column, human).len() <= max_width(
            entries,
            column,
            human,
        ),
    decreases entries.len(),
{
    let m = entries[i].metadata->0;
    lemma_chars_within_bytes(field_text(m, column, human));
    if i < entries.len() - 1 {
        assert(entries.drop_last()[i] == entries[i]);
        lemma_widths_cover(entries.drop_last(), column, human, i);
    }
}

/// In a line whose fields fit their columns, each column holds its field
/// padded to the column's width, and the closing blank of each column
/// stands at an offset that the widths alone decide.
pub proof fn lemma_line_columns(
    e: EntryModel,
    m: MetadataModel,
    w: WidthsModel,
    human: bool,
    stamp: Seq<char>,
)
    requires
        forall|c: Column| #[trigger] field_text(m, c, human).len() <= w.of(c),
    ensures
        ({
            let line = long_line(e, m, w, human, stamp);
            &&& line.len() == w.end_of(Column::Size) + 1 + stamp.len() + 1 + e.display_name.len()
            &&& line[10] == ' '
            &&& forall|c: Column| line[#[trigger] w.end_of(c)] == ' '
            &&& line.subrange(11, w.end_of(Column::Links)) == pad_left(
                field_text(m, Column::Links, human),
                w.links,
            )
            &&& line.subrange(w.end_of(Column::Links) + 1, w.end_of(Column::Owner)) == pad_right(
                field_text(m, Column::Owner, human),
                w.owner,
            )
            &&& line.subrange(w.end_of(Column::Owner) + 1, w.end_of(Column::Group)) == pad_right(
                field_text(m, Column::Group, human),
                w.group,
            )
            &&& line.subrange(w.end_of(Column::Group) + 1, w.end_of(Column::Size)) == pad_left(
                field_text(m, Column::Size, human),
                w.size,
            )
            &&& line.subrange(
                w.end_of(Column::Size) + 1,
                w.end_of(Column::Size) + 1 + stamp.len(),
            ) == stamp
        }),
{
    let line = long_line(e, m, w, human, stamp);
    let links = pad_left(field_text(m, Column::Links, human), w.links);
    let owner = pad_right(field_text(m, Column::Owner, human), w.owner);
    let group = pad_right(field_text(m, Column::Group, human), w.group);
    let size = pad_left(field_text(m, Column::Size, human), w.size);
    assert(field_text(m, Column::Links, human).len() <= w.of(Column::Links));
    assert(field_text(m, Column::Owner, human).len() <= w.of(Column::Owner));
    assert(field_text(m, Column::Group, human).len() <= w.of(Column::Group));
    assert(field_text(m, Column::Size, human).len() <= w.of(Column::Size));
    lemma_padded_len(field_text(m, Column::Links, human), w.links);
    lemma_padded_len(field_text(m, Column::Owner, human), w.owner);
    lemma_padded_len(field_text(m, Column::Group, human), w.group);
    lemma_padded_len(field_text(m, Column::Size, human), w.size);
    assert(permission_text(m.mode).len() == 9);
    assert forall|c: Column| line[#[trigger] w.end_of(c)] == ' ' by {
        match c {
            Column::Links => {},
            Column::Owner => {},
            Column::Group => {},
            Column::Size => {},
        }
    }
    assert(line.subrange(11, w.end_of(Column::Links)) =~= links);
    assert(line.subrange(w.end_of(Column::Links) + 1, w.end_of(Column::Owner)) =~= owner);
    assert(line.subrange(w.end_of(Column::Owner) + 1, w.end_of(Column::Group)) =~= group);
    assert(line.subrange(w.end_of(Column::Group) + 1, w.end_of(Column::Size)) =~= size);
    assert(line.subrange(w.end_of(Column::Size) + 1, w.end_of(Column::Size) + 1 + stamp.len())
        =~= stamp);
}

/// All long-format lines of one directory have their columns at the same
/// offsets, whatever the lengths of the values: in every line the blanks
/// that close the type and permissions and the four measured columns stand
/// at the offsets that the widths of the directory decide.
pub proof fn lemma_level_aligned(
    entries: Seq<EntryModel>,
    human: bool,
    current_year: i32,
    k: int,
)
    requires
        0 <= k < long_lines(entries, human, current_year).len(),
    ensures
        ({
            let line = long_lines(entries, human, current_year)[k];
            let w = widths_of(entries, human);
            &&& line.len() > w.end_of(Column::Size)
            &&& line[10] == ' '
            &&& forall|c: Column| line[#[trigger] w.end_of(c)] == ' '
        }),
{
    let w = widths_of(entries, human);
    let f = rendering(w, human, current_year);
    let line = entries.filter_map(f)[k];
    assert(entries.filter_map(f).contains(line));
    entries.lemma_filter_map_contains(f, line);
    let e = choose|e: EntryModel| #[trigger] entries.contains(e) && f(e) == Some(line);
    let i = choose|i: int| 0 <= i < entries.len() && entries[i] == e;
    let m = e.metadata->0;
    let stamp = stamp_text(m.modified_time.local, current_year)->0;
    assert forall|c: Column| #[trigger] field_text(m, c, human).len() <= w.of(c) by {
        lemma_widths_cover(entries, c, human, i);
    }
    lemma_line_columns(e, m, w, human, stamp);
}

/// An entry whose metadata could not be read is left out of the long format
/// and changes nothing for the others: with or without it, the widths, the
/// summary and the lines are the same.
pub proof fn lemma_unreadable_left_out(
    entries: Seq<EntryModel>,
    e: EntryModel,
    at: int,
    human: bool,
    current_year: i32,
)
    requires
        0 <= at <= entries.len(),
        e.metadata is None,
    ensures
        widths_of(entries.insert(at, e), human) == widths_of(entries, human),
        block_total(entries.insert(at, e)) == block_total(entries),
        long_lines(entries.insert(at, e), human, current_year) == long_lines(
            entries,
            human,
            current_year,
        ),
    decreases entries.len() - at,
{
    let with = entries.insert(at, e);
    lemma_unreadable_width(entries, e, at, Column::Links, human);
    lemma_unreadable_width(entries, e, at, Column::Owner, human);
    lemma_unreadable_width(entries, e, at, Column::Group, human);
    lemma_unreadable_width(entries, e, at, Column::Size, human);
    lemma_unreadable_blocks(entries, e, at);
    let f = rendering(widths_of(entries, human), human, current_year);
    lemma_unreadable_lines(entries, e, at, f);
}

/// An entry without metadata does not widen a column.
proof fn lemma_unreadable_width(
    entries: Seq<EntryModel>,
    e: EntryModel,
    at: int,
    column: Column,
    human: bool,
)
    requires
        0 <= at <= entries.len(),
        e.metadata is None,
    ensures
        max_width(entries.insert(at, e), column, human) == max_width(entries, column, human),
    decreases entries.len(),
{
    let with = entries.insert(at, e);
    if at == entries.len() {
        assert(with.drop_last() =~= entries);
    } else {
        assert(with.drop_last() =~= entries.drop_last().insert(at, e));
        assert(with.last() == entries.last());
        lemma_unreadable_width(entries.drop_last(), e, at, column, human);
    }
}

/// An entry without metadata adds no blocks.
proof fn lemma_unreadable_blocks(entries: Seq<EntryModel>, e: EntryModel, at: int)
    requires
        0 <= at <= entries.len(),
        e.metadata is None,
    ensures
        block_total(entries.insert(at, e)) == block_total(entries),
    decreases entries.len(),
{
    let with = entries.insert(at, e);
    if at == entries.len() {
        assert(with.drop_last() =~= entries);
    } else {
        assert(with.drop_last() =~= entries.drop_last().insert(at, e));
        assert(with.last() == entries.last());
        lemma_unreadable_blocks(entries.drop_last(), e, at);
    }
}

/// An entry that has no line adds none.
proof fn lemma_unreadable_lines(
    entries: Seq<EntryModel>,
    e: EntryModel,
    at: int,
    f: spec_fn(EntryModel) -> Option<Seq<char>>,
)
    requires
        0 <= at <= entries.len(),
        f(e) is None,
    ensures
        entries.insert(at, e).filter_map(f) == entries.filter_map(f),
    decreases entries.len(),
{
    let with = entries.insert(at, e);
    if at == entries.len() {
        assert(with.drop_last() =~= entries);
    } else {
        assert(with.drop_last() =~= entries.drop_last().insert(at, e));
        assert(with.last() == entries.last());
        lemma_unreadable_lines(entries.drop_last(), e, at, f);
    }
}

/// The type character of `entry`.
pub fn type_char_of(entry: &Entry) -> (c: char)
    ensures
        c == type_char(entry@),
{
    if entry.is_dir {
        'd'
    } else if entry.is_symlink {
        'l'
    } else {
        '-'
    }
}

/// `letter` where `mode` has a bit of `mask`, a dash where it has none.
pub fn flag_of(mode: u32, mask: u32, letter: char) -> (c: char)
    ensures
        c == flag_char(mode, mask, letter),
{
    if mode & mask != 0 {
        letter
    } else {
        '-'
    }
}

/// The nine permission characters of `mode`.
pub fn permission_string(mode: u32) -> (text: String)
    ensures
        text@ == permission_text(mode),
{
    let mut text = String::new();
    text.push(flag_of(mode, 0o400, 'r'));
    text.push(flag_of(mode, 0o200, 'w'));
    text.push(flag_of(mode, 0o100, 'x'));
    text.push(flag_of(mode, 0o040, 'r'));
    text.push(flag_of(mode, 0o020, 'w'));
    text.push(flag_of(mode, 0o010, 'x'));
    text.push(flag_of(mode, 0o004, 'r'));
    text.push(flag_of(mode, 0o002, 'w'));
    text.push(flag_of(mode, 0o001, 'x'));
    assert(text@ =~= permission_text(mode));
    text
}

/// What `column` shows of an entry with the metadata `metadata`.
pub fn field_string(metadata: &MetadataSnapshot, column: Column, human: bool) -> (text: String)
    ensures
        text@ == field_text(metadata@, column, human),
{
    match column {
        Column::Links => decimal_string(metadata.nlink as u128),
        Column::Owner => resolve_identity(&metadata.owner_name, metadata.uid),
        Column::Group => resolve_identity(&metadata.group_name, metadata.gid),
        Column::Size => {
            if human {
                bytes_to_human_readable(metadata.size)
            } else {
                decimal_string(metadata.size as u128)
            }
        },
    }
}

/// The number of bytes that `column` takes for an entry with the metadata
/// `metadata`.
pub fn field_width(metadata: &MetadataSnapshot, column: Column, human: bool) -> (width: usize)
    ensures
        width == byte_width(field_text(metadata@, column, human)),
{
    let text = field_string(metadata, column, human);
    byte_count(text.as_str())
}

/// The greater of two widths.
pub fn wider(a: usize, b: usize) -> (w: usize)
    ensures
        w == if b > a {
            b
        } else {
            a
        },
{
    if b > a {
        b
    } else {
        a
    }
}

/// Measures the four columns over the entries of one directory.
pub fn measure_columns(entries: &Vec<Entry>, human: bool) -> (widths: ColumnWidths)
    ensures
        widths@ == widths_of(entries.deep_view(), human),
{
    let mut widths = ColumnWidths {
        max_nlink_len: 0,
        max_user_len: 0,
        max_group_len: 0,
        max_size_len: 0,
    };
    let mut i: usize = 0;
    assert(entries.deep_view().take(0) =~= Seq::<EntryModel>::empty());
    while i < entries.len()
        invariant
            i <= entries.len(),
            widths@ == widths_of(entries.deep_view().take(i as int), human),
        decreases entries.len() - i,
    {
        proof {
            let now = entries.deep_view().take(i + 1);
            assert(now.drop_last() =~= entries.deep_view().take(i as int));
            assert(now.last() == entries[i as int]@);
        }
        match &entries[i].metadata {
            Some(m) => {
                widths.max_nlink_len = wider(
                    widths.max_nlink_len,
                    field_width(m, Column::Links, human),
                );
                widths.max_user_len = wider(
                    widths.max_user_len,
                    field_width(m, Column::Owner, human),
                );
                widths.max_group_len = wider(
                    widths.max_group_len,
                    field_width(m, Column::Group, human),
                );
                widths.max_size_len = wider(
                    widths.max_size_len,
                    field_width(m, Column::Size, human),
                );
            },
            None => {},
        }
        i = i + 1;
    }
    assert(entries.deep_view().take(i as int) =~= entries.deep_view());
    widths
}

/// Adds up the storage of the entries with metadata, in units of 512 bytes.
pub fn count_blocks(entries: &Vec<Entry>) -> (total: u128)
    ensures
        total == block_total(entries.deep_view()),
{
    let mut total: u128 = 0;
    let mut i: usize = 0;
    assert(entries.deep_view().take(0) =~= Seq::<EntryModel>::empty());
    while i < entries.len()
        invariant
            i <= entries.len(),
            total == block_total(entries.deep_view().take(i as int)),
            total <= i * 0xffff_ffff_ffff_ffff,
        decreases entries.len() - i,
    {
        proof {
            let now = entries.deep_view().take(i + 1);
            assert(now.drop_last() =~= entries.deep_view().take(i as int));
            assert(now.last() == entries[i as int]@);
        }
        match &entries[i].metadata {
            Some(m) => {
                total = total + (m.block_count as u128);
            },
            None => {},
        }
        i = i + 1;
    }
    assert(entries.deep_view().take(i as int) =~= entries.deep_view());
    total
}

/// The summary line of a directory.
pub fn format_total(entries: &Vec<Entry>) -> (line: String)
    ensures
        line@ == total_line(entries.deep_view()),
{
    let mut line = String::from_str("total ");
    let number = decimal_string(count_blocks(entries) / 2);
    line.append(number.as_str());
    line
}

/// Renders the long-format line of `entry`, whose metadata is `metadata`,
/// in columns of the widths `widths` and with the modification stamp
/// `stamp`.
pub fn format_long_line(
    entry: &Entry,
    metadata: &MetadataSnapshot,
    widths: &ColumnWidths,
    human: bool,
    stamp: &str,
) -> (line: String)
    ensures
        line@ == long_line(entry@, metadata@, widths@, human, stamp@),
{
    let mut line = String::new();
    line.push(type_char_of(entry));
    line.append(permission_string(metadata.mode).as_str());
    line.push(' ');
    let links = field_string(metadata, Column::Links, human);
    line.append(pad_start(links.as_str(), widths.max_nlink_len).as_str());
    line.push(' ');
    let owner = field_string(metadata, Column::Owner, human);
    line.append(pad_end(owner.as_str(), widths.max_user_len).as_str());
    line.push(' ');
    let group = field_string(metadata, Column::Group, human);
    line.append(pad_end(group.as_str(), widths.max_group_len).as_str());
    line.push(' ');
    let size = field_string(metadata, Column::Size, human);
    line.append(pad_start(size.as_str(), widths.max_size_len).as_str());
    line.push(' ');
    line.append(stamp);
    line.push(' ');
    line.append(entry.display_name.as_str());
    assert(line@ =~= long_line(entry@, metadata@, widths@, human, stamp@));
    line
}

/// Renders the long-format line of `entry`, if it has one.
pub fn render_entry(entry: &Entry, widths: &ColumnWidths, human: bool, current_year: i32) -> (line:
    Option<String>)
    ensures
        text_model(line) == rendered_line(entry@, widths@, human, current_year),
{
    match &entry.metadata {
        Some(m) => match stamp_for(&m.modified_time.local, current_year) {
            Some(stamp) => Some(format_long_line(entry, m, widths, human, stamp.as_str())),
            None => None,
        },
        None => None,
    }
}

/// Renders the entries of one directory, in the order of `entries`.
pub fn render_entries(entries: &Vec<Entry>, args: &LsArgs, current_year: i32) -> (lines: Vec<
    String,
>)
    ensures
        lines.deep_view() == entry_lines(entries.deep_view(), *args, current_year),
{
    let mut lines: Vec<String> = Vec::new();
    let mut i: usize = 0;
    assert(entries.deep_view().take(0) =~= Seq::<EntryModel>::empty());
    if args.long {
        let widths = measure_columns(entries, args.human_readable);
        let ghost f = rendering(widths@, args.human_readable, current_year);
        assert(lines.deep_view() =~= entries.deep_view().take(0).filter_map(f));
        while i < entries.len()
            invariant
                i <= entries.len(),
                f == rendering(widths@, args.human_readable, current_year),
                lines.deep_view() == entries.deep_view().take(i as int).filter_map(f),
            decreases entries.len() - i,
        {
            let ghost before = lines.deep_view();
            proof {
                entries.deep_view().lemma_filter_map_take_succ(f, i as int);
            }
            match render_entry(&entries[i], &widths, args.human_readable, current_year) {
                Some(line) => {
                    lines.push(line);
                    assert(lines.deep_view() =~= before + seq![line@]);
                },
                None => {},
            }
            i = i + 1;
        }
        assert(entries.deep_view().take(i as int) =~= entries.deep_view());
    } else {
        assert(lines.deep_view() =~= short_lines(entries.deep_view().take(0)));
        while i < entries.len()
            invariant
                i <= entries.len(),
                lines.deep_view() == short_lines(entries.deep_view().take(i as int)),
            decreases entries.len() - i,
        {
            let ghost before = lines.deep_view();
            lines.push(entries[i].display_name.clone());
            i = i + 1;
            assert(lines.deep_view() =~= before.push(entries[i - 1]@.display_name));
            assert(entries.deep_view().take(i as int) =~= entries.deep_view().take(i - 1).push(
                entries[i - 1]@,
            ));
            assert(lines.deep_view() =~= short_lines(entries.deep_view().take(i as int)));
        }
        assert(entries.deep_view().take(i as int) =~= entries.deep_view());
    }
    lines
}

/// Renders everything that is printed for the directory `path`, whose
/// ordered entries are `entries`: the header in a recursive listing, with an
/// empty line before it below the top level; the summary in long format;
/// and the entries.
pub fn render_level(
    path: &str,
    entries: &Vec<Entry>,
    args: &LsArgs,
    depth: usize,
    current_year: i32,
) -> (lines: Vec<String>)
    ensures
        lines.deep_view() == level_lines(
            path@,
            entries.deep_view(),
            *args,
            depth as nat,
            current_year,
        ),
{
    let mut lines: Vec<String> = Vec::new();
    if args.recursive {
        if depth > 0 {
            lines.push(String::new());
        }
        let mut header = String::from_str(path);
        header.push(':');
        assert(header@ =~= path@ + seq![':']);
        lines.push(header);
    }
    assert(lines.deep_view() =~= header_lines(path@, args.recursive, depth as nat));
    if args.long && (depth == 0 || args.recursive) {
        lines.push(format_total(entries));
    }
    let ghost top = lines.deep_view();
    assert(top =~= header_lines(path@, args.recursive, depth as nat) + summary_lines(
        entries.deep_view(),
        *args,
        depth as nat,
    ));
    let mut shown = render_entries(entries, args, current_year);
    let ghost body = shown.deep_view();
    lines.append(&mut shown);
    assert(lines.deep_view() =~= top + body);
    lines
}

} // verus!
