//! Filesystem entries and the metadata a listing shows of them.

use vstd::prelude::*;
use crate::cli::Flags;
use crate::sort::{
    lemma_directories_first, lemma_reverse_alone_changes_nothing, sort_entries, sorted_entries,
};
use crate::text::{decimal, decimal_string};
use vstd::utf8::{decode_utf8, valid_utf8};

verus! {

/// Whether an entry is a directory or anything else. A directory orders before the rest.
#[derive(Debug, Clone, Copy, PartialEq, Eq, PartialOrd, Ord, Structural)]
pub enum FileType {
    Dir,
    File,
}

impl FileType {
    /// Returns `true` if the file type is [`Dir`].
    ///
    /// [`Dir`]: FileType::Dir
    #[must_use]
    pub fn is_dir(self) -> (dir: bool)
        ensures
            dir == (self is Dir),
    {
        matches!(self, Self::Dir)
    }
}

impl From<bool> for FileType {
    /// The type of an entry of which only this is known: whether it is a directory.
    fn from(is_dir: bool) -> (kind: FileType) {
        if is_dir {
            Self::Dir
        } else {
            Self::File
        }
    }
}

impl vstd::std_specs::convert::FromSpecImpl<bool> for FileType {
    open spec fn obeys_from_spec() -> bool {
        true
    }

    open spec fn from_spec(is_dir: bool) -> FileType {
        if is_dir {
            FileType::Dir
        } else {
            FileType::File
        }
    }
}

/// A point in time, counted from the start of 1970 in UTC; times before that have
/// negative seconds.
#[derive(Debug, Clone, Copy, PartialEq, Eq, Structural)]
pub struct Timestamp {
    /// Whole seconds.
    pub secs: i64,
    /// Nanoseconds beyond the whole seconds.
    pub nanos: u32,
}

impl Timestamp {
    /// The point in time as a count of nanoseconds.
    pub open spec fn total_nanos(self) -> int {
        self.secs * 1_000_000_000 + self.nanos
    }

    /// The time that lies the given length after the start of 1970, if its seconds can
    /// be held.
    pub fn after_epoch(secs: u64, nanos: u32) -> (time: Option<Timestamp>)
        ensures
            time is Some <==> secs <= i64::MAX,
            time matches Some(at) ==> at.secs == secs && at.nanos == nanos,
    {
        if secs <= 0x7fff_ffff_ffff_ffff {
            Some(Timestamp { secs: secs as i64, nanos })
        } else {
            None
        }
    }

    /// The time that lies the given length before the start of 1970, if the length is
    /// well formed, with less than a second of nanoseconds, and its seconds can be held.
    pub fn before_epoch(secs: u64, nanos: u32) -> (time: Option<Timestamp>)
        ensures
            time is Some <==> secs <= i64::MAX && nanos < 1_000_000_000,
            time matches Some(at) ==> at.total_nanos() == -(secs * 1_000_000_000 + nanos)
                && at.nanos < 1_000_000_000,
    {
        if secs > 0x7fff_ffff_ffff_ffff || nanos >= 1_000_000_000 {
            None
        } else if nanos == 0 {
            Some(Timestamp { secs: -(secs as i64), nanos: 0 })
        } else {
            Some(Timestamp { secs: -(secs as i64) - 1, nanos: 1_000_000_000 - nanos })
        }
    }

    /// The point in time as a count of nanoseconds.
    pub fn as_nanos(&self) -> (total: i128)
        ensures
            total == self.total_nanos(),
    {
        let secs: i128 = self.secs as i128;
        let nanos: i128 = self.nanos as i128;
        secs * 1_000_000_000 + nanos
    }
}

/// What the filesystem records of an entry.
#[derive(Debug)]
pub struct Metadata {
    /// Size in bytes.
    pub size: u64,
    /// Number of hard links.
    pub links: u64,
    /// Numeric id of the owning user.
    pub uid: u32,
    /// Numeric id of the owning group.
    pub gid: u32,
    /// Mode bits; the lowest nine are the permissions.
    pub mode: u32,
    /// When the entry was last modified, or why that is not known.
    pub modified: Result<Timestamp, String>,
}

/// Represents a File or a Dir with all the metadata
#[derive(Debug)]
pub struct Entry {
    /// The file name, byte for byte.
    pub name: Vec<u8>,
    /// Directory or not; fixed when the entry is collected.
    pub kind: FileType,
    pub metadata: Metadata,
}

/// What reading a directory gave for one of its entries.
#[derive(Debug)]
pub enum Child {
    /// The entry itself could not be read.
    Unreadable,
    /// The entry's name, with its type and metadata where they could be read.
    Found { name: Vec<u8>, kind: Option<FileType>, metadata: Option<Metadata> },
}

/// What was found at the path that is to be listed.
#[derive(Debug)]
pub enum Target {
    /// Nothing exists at the path.
    Missing,
    /// Something that is no directory: its name, and its metadata if they could be read.
    Single { name: Vec<u8>, metadata: Option<Metadata> },
    /// A directory, with its entries in the order in which they were read.
    Directory { children: Vec<Child> },
    /// A directory that could not be read, and the reason.
    Unreadable { reason: String },
}

/// Why a path could not be listed.
#[derive(Debug)]
pub enum ListError {
    /// The path names a single file whose metadata could not be read.
    MetadataUnavailable,
    /// The directory itself could not be read.
    Unreadable { reason: String },
}

/// Whether a name marks its entry as hidden: its first byte is a dot.
pub open spec fn is_hidden(name: Seq<u8>) -> bool {
    name.len() > 0 && name[0] == 0x2e
}

// Checks if given name is 'hidden' (starts with '.')
pub fn is_hidden_folder(name: &Vec<u8>) -> (hidden: bool)
    ensures
        hidden == is_hidden(name@),
{
    name.len() > 0 && name[0] == 0x2e
}

/// The entry that a listing shows for `child`, if it shows one: none for a child that
/// could not be read, that is hidden while hidden entries are not shown, or whose type or
/// metadata are missing.
pub open spec fn admitted(child: Child, show_hidden: bool) -> Option<Entry> {
    match child {
        Child::Found { name, kind: Some(kind), metadata: Some(metadata) } if show_hidden
            || !is_hidden(name@) => Some(Entry { name, kind, metadata }),
        _ => None,
    }
}

/// The entries that a listing shows for `children`, in the order of `children`.
pub open spec fn collected(children: Seq<Child>, show_hidden: bool) -> Seq<Entry>
    decreases children.len(),
{
    if children.len() == 0 {
        Seq::empty()
    } else {
        let front = collected(children.drop_last(), show_hidden);
        match admitted(children.last(), show_hidden) {
            Some(entry) => front.push(entry),
            None => front,
        }
    }
}

/// Computes [`admitted`].
pub fn shown_entry(child: Child, show_hidden: bool) -> (entry: Option<Entry>)
    ensures
        entry == admitted(child, show_hidden),
{
    match child {
        Child::Unreadable => None,
        Child::Found { name, kind, metadata } => {
            if !show_hidden && is_hidden_folder(&name) {
                return None;
            }
            match (kind, metadata) {
                (Some(kind), Some(metadata)) => Some(Entry { name, kind, metadata }),
                _ => None,
            }
        },
    }
}

/// Keeps the children that a listing shows, in the order in which they came.
pub fn collect_entries(children: Vec<Child>, show_hidden: bool) -> (entries: Vec<Entry>)
    ensures
        entries@ == collected(children@, show_hidden),
{
    let mut entries: Vec<Entry> = Vec::new();
    let ghost all = children@;
    for child in iter: children
        invariant
            iter.seq() == all,
            entries@ == collected(all.take(iter.index() as int), show_hidden),
    {
        proof {
            let upto = all.take(iter.index() + 1);
            assert(upto.drop_last() =~= all.take(iter.index() as int));
            assert(upto.last() == child);
        }
        match shown_entry(child, show_hidden) {
            Some(entry) => entries.push(entry),
            None => {},
        }
    }
    assert(all.take(all.len() as int) =~= all);
    entries
}

/// What a listing of `target` is: nothing for a missing path, the one entry for a single
/// file, and for a directory the entries that are shown, in listing order.
pub open spec fn listing(target: Target, flags: Flags, now: Timestamp) -> Result<
    Seq<Entry>,
    ListError,
> {
    match target {
        Target::Missing => Ok(Seq::empty()),
        Target::Single { name, metadata: Some(metadata) } => Ok(
            seq![Entry { name, kind: FileType::File, metadata }],
        ),
        Target::Single { name, metadata: None } => Err(ListError::MetadataUnavailable),
        Target::Directory { children } => Ok(
            sorted_entries(collected(children@, flags.show_hidden), flags, now),
        ),
        Target::Unreadable { reason } => Err(ListError::Unreadable { reason }),
    }
}

/// Lists what was found at a path. `now` is the present, by which ages are measured.
pub fn get_entries(target: Target, flags: &Flags, now: &Timestamp) -> (found: Result<
    Vec<Entry>,
    ListError,
>)
    ensures
        match (found, listing(target, *flags, *now)) {
            (Ok(entries), Ok(listed)) => entries@ == listed,
            (Err(error), Err(expected)) => error == expected,
            _ => false,
        },
{
    match target {
        Target::Missing => Ok(Vec::new()),
        Target::Single { name, metadata } => match metadata {
            Some(metadata) => {
                let mut entries: Vec<Entry> = Vec::new();
                entries.push(Entry { name, kind: FileType::File, metadata });
                assert(entries@ =~= seq![entries@[0]]);
                Ok(entries)
            },
            None => Err(ListError::MetadataUnavailable),
        },
        Target::Directory { children } => {
            let entries = collect_entries(children, flags.show_hidden);
            Ok(sort_entries(entries, flags, now))
        },
        Target::Unreadable { reason } => Err(ListError::Unreadable { reason }),
    }
}

/// In every listing the directories stand before all other entries, whatever the
/// switches say.
pub proof fn lemma_listing_has_directories_first(target: Target, flags: Flags, now: Timestamp)
    ensures
        listing(target, flags, now) matches Ok(entries) ==> forall|i: int, j: int|
            #![trigger entries[i], entries[j]]
            0 <= i < j < entries.len() && entries[j].kind is Dir ==> entries[i].kind is Dir,
{
    if let Target::Directory { children } = target {
        lemma_directories_first(collected(children@, flags.show_hidden), flags, now);
    }
}

/// Where neither sorting by size nor by time is asked for, reversing changes nothing:
/// two sets of switches that agree on hidden entries list the same.
pub proof fn lemma_reverse_alone_lists_the_same(
    target: Target,
    plain: Flags,
    reversed: Flags,
    now: Timestamp,
)
    requires
        !plain.sort_by_size && !plain.sort_by_modified_time,
        !reversed.sort_by_size && !reversed.sort_by_modified_time,
        plain.show_hidden == reversed.show_hidden,
    ensures
        listing(target, plain, now) == listing(target, reversed, now),
{
    if let Target::Directory { children } = target {
        lemma_reverse_alone_changes_nothing(
            collected(children@, plain.show_hidden),
            plain,
            reversed,
            now,
        );
    }
}

/// The bits of a mode that grant reading, writing and executing to one class of users.
#[derive(Debug, Clone, Copy, PartialEq, Eq, Structural)]
pub struct Masks {
    pub read: u32,
    pub write: u32,
    pub execute: u32,
}

/// The bits of the owning user.
pub open spec fn user_masks() -> Masks {
    Masks { read: 0x100, write: 0x80, execute: 0x40 }
}

/// The bits of the owning group.
pub open spec fn group_masks() -> Masks {
    Masks { read: 0x20, write: 0x10, execute: 0x8 }
}

/// The bits of everybody else.
pub open spec fn other_masks() -> Masks {
    Masks { read: 0x4, write: 0x2, execute: 0x1 }
}

/// The permission bits as `libc` defines them (`S_IRUSR` to `S_IXOTH`), for user, group
/// and others in this order. The contract states their values on Linux, octal 400 down
/// to octal 1; it is taken from `libc`, not proved.
#[verifier::external_body]
fn permission_masks() -> (masks: (Masks, Masks, Masks))
    ensures
        masks == (user_masks(), group_masks(), other_masks()),
{
    (
        Masks { read: libc::S_IRUSR, write: libc::S_IWUSR, execute: libc::S_IXUSR },
        Masks { read: libc::S_IRGRP, write: libc::S_IWGRP, execute: libc::S_IXGRP },
        Masks { read: libc::S_IROTH, write: libc::S_IWOTH, execute: libc::S_IXOTH },
    )
}

/// Three characters for one class of users: `r`, `w` and `x` where the right is
/// granted, a dash where it is not.
pub open spec fn triplet_text(read: bool, write: bool, execute: bool) -> Seq<char> {
    seq![
        if read { 'r' } else { '-' },
        if write { 'w' } else { '-' },
        if execute { 'x' } else { '-' },
    ]
}

/// The nine characters of a mode: the triplets of user, group and others.
pub open spec fn permission_text(mode: u32) -> Seq<char> {
    triplet_text(mode & 0x100 != 0, mode & 0x80 != 0, mode & 0x40 != 0) + triplet_text(
        mode & 0x20 != 0,
        mode & 0x10 != 0,
        mode & 0x8 != 0,
    ) + triplet_text(mode & 0x4 != 0, mode & 0x2 != 0, mode & 0x1 != 0)
}

/// The triplet of the class whose three bits are `read`, `write` and `execute`.
pub fn triplet(mode: u32, read: u32, write: u32, execute: u32) -> (text: String)
    ensures
        text@ == triplet_text(mode & read != 0, mode & write != 0, mode & execute != 0),
{
    let mut text = String::new();
    text.push(if mode & read != 0 { 'r' } else { '-' });
    text.push(if mode & write != 0 { 'w' } else { '-' });
    text.push(if mode & execute != 0 { 'x' } else { '-' });
    assert(text@ =~= triplet_text(mode & read != 0, mode & write != 0, mode & execute != 0));
    text
}

/// Helper functions to get and parse permissions of entries
pub fn parse_permissions(mode: u32) -> (text: String)
    ensures
        text@ == permission_text(mode),
        text@.len() == 9,
{
    let (user, group, other) = permission_masks();
    let mut text = triplet(mode, user.read, user.write, user.execute);
    let group_text = triplet(mode, group.read, group.write, group.execute);
    let other_text = triplet(mode, other.read, other.write, other.execute);
    text.append(group_text.as_str());
    text.append(other_text.as_str());
    text
}

/// What `String::from_utf8_lossy` makes of a sequence of bytes.
pub uninterp spec fn lossy_text(bytes: Seq<u8>) -> Seq<char>;

/// `String::from_utf8_lossy`: the text that the bytes encode; bytes that are not UTF-8
/// are replaced as std documents. The contract names the result and states that valid
/// UTF-8 is decoded as it stands.
#[verifier::external_body]
pub(crate) fn lossy_string(bytes: &Vec<u8>) -> (text: String)
    ensures
        text@ == lossy_text(bytes@),
        valid_utf8(bytes@) ==> text@ == decode_utf8(bytes@),
{
    String::from_utf8_lossy(bytes).into_owned()
}

/// `users::get_user_by_uid`: the name of the user with this id in the system's user
/// database, if it has one. Nothing is claimed of the answer.
#[verifier::external_body]
fn user_name(uid: u32) -> (name: Option<String>) {
    users::get_user_by_uid(uid).map(|user| user.name().to_string_lossy().into_owned())
}

/// `users::get_group_by_gid`: the name of the group with this id in the system's group
/// database, if it has one. Nothing is claimed of the answer.
#[verifier::external_body]
fn group_name(gid: u32) -> (name: Option<String>) {
    users::get_group_by_gid(gid).map(|group| group.name().to_string_lossy().into_owned())
}

/// The name that was found for an id, or else the id as a decimal number.
pub open spec fn name_or_id(name: Option<Seq<char>>, id: u32) -> Seq<char> {
    match name {
        Some(name) => name,
        None => decimal(id as nat),
    }
}

/// Owner and group as a listing shows them: the two names, or ids, with a space between.
pub open spec fn owners_text(
    uid: u32,
    user: Option<Seq<char>>,
    gid: u32,
    group: Option<Seq<char>>,
) -> Seq<char> {
    name_or_id(user, uid) + seq![' '] + name_or_id(group, gid)
}

/// The text of an optional string.
pub open spec fn optional_text(text: Option<String>) -> Option<Seq<char>> {
    match text {
        Some(text) => Some(text@),
        None => None,
    }
}

/// Whether `text` shows owner and group of `meta` for some answer of the user and
/// group databases.
pub open spec fn is_owners_text(meta: Metadata, text: Seq<char>) -> bool {
    exists|user: Option<Seq<char>>, group: Option<Seq<char>>|
        text == #[trigger] owners_text(meta.uid, user, meta.gid, group)
}

fn name_or_number(name: Option<String>, id: u32) -> (text: String)
    ensures
        text@ == name_or_id(optional_text(name), id),
{
    match name {
        Some(name) => name,
        None => decimal_string(id as u64),
    }
}

/// Owner and group of an entry, given what the lookups of their names answered: a name
/// that was not found gives way to the numeric id.
pub fn owner_and_group(uid: u32, user: Option<String>, gid: u32, group: Option<String>) -> (text:
    String)
    ensures
        text@ == owners_text(uid, optional_text(user), gid, optional_text(group)),
{
    let mut text = name_or_number(user, uid);
    let group_text = name_or_number(group, gid);
    text.push(' ');
    text.append(group_text.as_str());
    assert(text@ =~= owners_text(uid, optional_text(user), gid, optional_text(group)));
    text
}

/// Gets the owner and group names associated with a file
pub fn get_file_owner_and_group(meta: &Metadata) -> (text: String)
    ensures
        is_owners_text(*meta, text@),
{
    let user = user_name(meta.uid);
    let group = group_name(meta.gid);
    let ghost user_text = optional_text(user);
    let ghost group_text = optional_text(group);
    let text = owner_and_group(meta.uid, user, meta.gid, group);
    assert(text@ == owners_text(meta.uid, user_text, meta.gid, group_text));
    text
}

/// Whether `c` is a decimal digit.
pub open spec fn is_digit(c: char) -> bool {
    '0' <= c <= '9'
}

/// The number that two digits stand for.
pub open spec fn two_digits(tens: char, ones: char) -> int {
    10 * (tens as int - '0' as int) + (ones as int - '0' as int)
}

/// Whether `name` is the three-letter English short name of a month.
pub open spec fn is_month_name(name: Seq<char>) -> bool {
    ||| name == seq!['J', 'a', 'n']
    ||| name == seq!['F', 'e', 'b']
    ||| name == seq!['M', 'a', 'r']
    ||| name == seq!['A', 'p', 'r']
    ||| name == seq!['M', 'a', 'y']
    ||| name == seq!['J', 'u', 'n']
    ||| name == seq!['J', 'u', 'l']
    ||| name == seq!['A', 'u', 'g']
    ||| name == seq!['S', 'e', 'p']
    ||| name == seq!['O', 'c', 't']
    ||| name == seq!['N', 'o', 'v']
    ||| name == seq!['D', 'e', 'c']
}

/// Whether `text` has the form of a date in a listing, as in `Sep 10 14:23`: the short
/// name of the month, the day of the month from 01 to 31, the hour from 00 to 23 and
/// the minute from 00 to 59, each in two digits.
pub open spec fn is_date_text(text: Seq<char>) -> bool {
    &&& text.len() == 12
    &&& is_month_name(text.take(3))
    &&& text[3] == ' '
    &&& is_digit(text[4])
    &&& is_digit(text[5])
    &&& 1 <= two_digits(text[4], text[5]) <= 31
    &&& text[6] == ' '
    &&& is_digit(text[7])
    &&& is_digit(text[8])
    &&& two_digits(text[7], text[8]) <= 23
    &&& text[9] == ':'
    &&& is_digit(text[10])
    &&& is_digit(text[11])
    &&& two_digits(text[10], text[11]) <= 59
}

/// The last second of which the calendar has a date: the end of its last year, 262142.
pub open spec fn last_second() -> int {
    8_210_266_876_799
}

/// What stands in place of a date that the calendar cannot express.
pub open spec fn no_date_text() -> Seq<char> {
    "Error: out of range"@
}

/// What stands in place of a date that could not be read, for the given reason.
pub open spec fn failed_date_text(reason: Seq<char>) -> Seq<char> {
    "Error: "@ + reason
}

/// A length of time as std shows it for inspection, such as `1.5s`.
pub uninterp spec fn duration_debug(secs: u64, nanos: u32) -> Seq<char>;

/// What stands in place of the date of a time before 1970: how long before it was.
pub open spec fn before_epoch_text(at: Timestamp) -> Seq<char> {
    "Error: SystemTimeError("@ + duration_debug(
        (-at.total_nanos() / 1_000_000_000) as u64,
        (-at.total_nanos() % 1_000_000_000) as u32,
    ) + ")"@
}

/// The date of the second `secs` after the start of 1970 at a place whose clocks are
/// `east` seconds ahead of UTC, as chrono writes it with `%b %d %H:%M`.
pub uninterp spec fn date_text_at(secs: int, east: int) -> Seq<char>;

/// Whether `text` is the date of the second `secs` in some time zone: at some offset
/// of less than a day from UTC.
pub open spec fn is_local_date(secs: int, text: Seq<char>) -> bool {
    is_date_text(text) && exists|east: int|
        -86_400 < east < 86_400 && text == #[trigger] date_text_at(secs, east)
}

/// Whether `text` shows the time `at` as a listing does: its date in local time for
/// every time from 1970 up to the calendar's last second, and in place of a date how
/// long before 1970 an earlier time was, or that a later time is out of range.
pub open spec fn is_time_text(at: Timestamp, text: Seq<char>) -> bool {
    if at.total_nanos() < 0 {
        text == before_epoch_text(at)
    } else if at.total_nanos() / 1_000_000_000 <= last_second() {
        is_local_date(at.total_nanos() / 1_000_000_000, text)
    } else {
        text == no_date_text()
    }
}

/// `chrono::Local.timestamp_opt(..)` and `FixedOffset::local_minus_utc`: how many
/// seconds the machine's time zone is ahead of UTC at the given point in time; `None`
/// where chrono has no such time. The offset depends on the time zone, so the contract
/// states only that it is less than a day, as chrono builds no other. Whether there is
/// one does not depend on it: chrono's source shows that a count from 1970 on is a
/// time up to the end of the year 262142, and none beyond.
#[verifier::external_body]
fn local_offset(secs: i64, nanos: u32) -> (offset: Option<i32>)
    ensures
        offset matches Some(east) ==> -86_400 < east < 86_400,
        0 <= secs && nanos < 1_000_000_000 ==> (offset is Some <==> secs <= last_second()),
{
    chrono::TimeZone::timestamp_opt(&chrono::Local, secs, nanos).single().map(
        |time| time.offset().local_minus_utc(),
    )
}

/// `chrono::DateTime::from_timestamp`, `with_timezone` of a `FixedOffset` and
/// `format("%b %d %H:%M")`: the point in time at the given offset from UTC, as month,
/// day, hour and minute. The contract names the text, which seconds and offset decide,
/// and states its form.
#[verifier::external_body]
fn date_at(secs: i64, nanos: u32, east: i32) -> (text: String)
    requires
        0 <= secs <= last_second(),
        nanos < 1_000_000_000,
        -86_400 < east < 86_400,
    ensures
        text@ == date_text_at(secs as int, east as int),
        is_date_text(text@),
{
    chrono::DateTime::from_timestamp(secs, nanos).unwrap().with_timezone(
        &chrono::FixedOffset::east_opt(east).unwrap(),
    ).format("%b %d %H:%M").to_string()
}

/// `std::time::Duration::new` and its `Debug` form: a length of time as text. The
/// contract names the result.
#[verifier::external_body]
fn duration_text(secs: u64, nanos: u32) -> (text: String)
    requires
        nanos < 1_000_000_000,
    ensures
        text@ == duration_debug(secs, nanos),
{
    format!("{:?}", std::time::Duration::new(secs, nanos))
}

/// Converts a point in time to a readable string in local time EX: Sep 10 14:23
pub fn get_file_date(modified_time: &Timestamp) -> (text: String)
    ensures
        is_time_text(*modified_time, text@),
{
    let total: i128 = modified_time.as_nanos();
    if total < 0 {
        let before: i128 = -total;
        let secs: u64 = (before / 1_000_000_000) as u64;
        let nanos: u32 = (before % 1_000_000_000) as u32;
        let mut text = String::from_str("Error: SystemTimeError(");
        text.append(duration_text(secs, nanos).as_str());
        text.append(")");
        return text;
    }
    let secs: i128 = total / 1_000_000_000;
    let nanos: u32 = (total % 1_000_000_000) as u32;
    if secs <= 8_210_266_876_799 {
        match local_offset(secs as i64, nanos) {
            Some(east) => {
                return date_at(secs as i64, nanos, east);
            },
            None => {},
        }
    }
    String::from_str("Error: out of range")
}

impl Entry {
    /// The name as text.
    pub open spec fn name_text(self) -> Seq<char> {
        lossy_text(self.name@)
    }

    /// Whether `text` can stand for the time of the last change: the time as a listing
    /// shows it, or the reason why it is not known.
    pub open spec fn is_modified_text(self, text: Seq<char>) -> bool {
        match self.metadata.modified {
            Ok(at) => is_time_text(at, text),
            Err(reason) => text == failed_date_text(reason@),
        }
    }

    /// Gets the name of the entry as text; bytes that are no text are replaced.
    pub fn get_name(&self) -> (text: String)
        ensures
            text@ == self.name_text(),
            valid_utf8(self.name@) ==> text@ == decode_utf8(self.name@),
    {
        lossy_string(&self.name)
    }

    /// Gets the size of the entry in bytes.
    pub fn get_size(&self) -> (size: u64)
        ensures
            size == self.metadata.size,
    {
        self.metadata.size
    }

    /// Whether the entry is a directory.
    pub fn is_folder(&self) -> (folder: bool)
        ensures
            folder == (self.kind is Dir),
    {
        self.kind.is_dir()
    }

    /// Gets permissions of entry
    pub fn get_permissions(&self) -> (text: String)
        ensures
            text@ == permission_text(self.metadata.mode),
    {
        parse_permissions(self.metadata.mode)
    }

    /// Gets num of links
    pub fn get_links(&self) -> (text: String)
        ensures
            text@ == decimal(self.metadata.links as nat),
    {
        decimal_string(self.metadata.links)
    }

    /// Get owner and group of entry
    pub fn get_owners(&self) -> (text: String)
        ensures
            is_owners_text(self.metadata, text@),
    {
        get_file_owner_and_group(&self.metadata)
    }

    /// Get modified (local) time of entry
    pub fn get_modified_time(&self) -> (text: String)
        ensures
            self.is_modified_text(text@),
    {
        match &self.metadata.modified {
            Ok(mod_time) => get_file_date(mod_time),
            Err(e) => {
                let mut text = String::from_str("Error: ");
                text.append(e.as_str());
                text
            },
        }
    }
}

} // verus!
