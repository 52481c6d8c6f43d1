//! Rendering a listing as text.

use vstd::prelude::*;
use crate::cli::Flags;
use crate::entry::{is_owners_text, optional_text, permission_text, Entry};
use vstd::string::StringExecFns;
use crate::text::{decimal, decimal_string, digit, digit_char, padded, push_decimal, push_repeated};

verus! {

/// The widths of the two columns of a long listing that are padded.
#[derive(Debug, Clone, Copy)]
pub struct FormatSizes {
    /// Width of the size column.
    pub file_len: usize,
    /// Width of the link-count column.
    pub sym_len: usize,
}

/// `numerator / denominator` rounded to the nearest whole number, a tie to the even one.
pub open spec fn round_half_even(numerator: nat, denominator: nat) -> nat {
    let quotient = numerator / denominator;
    let rest = numerator % denominator;
    if 2 * rest < denominator || (2 * rest == denominator && quotient % 2 == 0) {
        quotient
    } else {
        quotient + 1
    }
}

/// The whole-number logarithm of `n` to the base 1024; 0 for `n` below 1024.
pub open spec fn log_1024(n: nat) -> nat
    decreases n,
{
    if n < 1024 {
        0
    } else {
        1 + log_1024(n / 1024)
    }
}

/// Which unit a count of bytes is shown in: 0 for bytes, up to 4 for the largest unit.
pub open spec fn unit_index(bytes: nat) -> nat {
    if log_1024(bytes) < 4 {
        log_1024(bytes)
    } else {
        4
    }
}

/// How many bytes make one of the unit with this index: a power of 1024.
pub open spec fn unit_size(index: nat) -> nat
    decreases index,
{
    if index == 0 {
        1
    } else {
        1024 * unit_size((index - 1) as nat)
    }
}

/// The letter of the unit with this index.
pub open spec fn unit_letter(index: nat) -> char {
    if index == 0 {
        'B'
    } else if index == 1 {
        'K'
    } else if index == 2 {
        'M'
    } else if index == 3 {
        'G'
    } else {
        'T'
    }
}

/// The distance between neighbouring numbers of 53 significant bits near `n`:
/// 1 below 2^53, and doubling with each further bit.
pub open spec fn spacing(n: nat) -> nat
    decreases n,
{
    if n < 0x20_0000_0000_0000 {
        1
    } else {
        2 * spacing(n / 2)
    }
}

/// `bytes` as a number of 53 significant bits, which is how sizes are scaled: the nearest
/// such number, a tie to the one whose last bit is zero. Counts below 2^53 are kept as
/// they are.
pub open spec fn in_53_bits(bytes: nat) -> nat {
    round_half_even(bytes, spacing(bytes)) * spacing(bytes)
}

/// A count of bytes in tenths of its unit, rounded to the nearest tenth, a tie to the
/// even one.
pub open spec fn human_tenths(bytes: nat) -> nat {
    round_half_even(in_53_bits(bytes) * 10, unit_size(unit_index(bytes)))
}

/// A count of bytes with a binary unit: below 1024 the plain count and `B`, from there
/// on the count in the largest unit that it fills, up to `T`, with one decimal place.
pub open spec fn human_size(bytes: nat) -> Seq<char> {
    if bytes < 1024 {
        decimal(bytes).push('B')
    } else {
        decimal(human_tenths(bytes) / 10).push('.').push(
            digit_char(human_tenths(bytes) % 10),
        ).push(unit_letter(unit_index(bytes)))
    }
}

/// Computes [`round_half_even`].
fn rounded_quotient(numerator: u128, denominator: u128) -> (rounded: u128)
    requires
        0 < denominator <= u64::MAX,
        numerator < u128::MAX,
    ensures
        rounded == round_half_even(numerator as nat, denominator as nat),
{
    let quotient: u128 = numerator / denominator;
    let rest: u128 = numerator % denominator;
    if 2 * rest < denominator || (2 * rest == denominator && quotient % 2 == 0) {
        quotient
    } else {
        quotient + 1
    }
}

/// Computes [`spacing`].
fn spacing_near(n: u64) -> (step: u64)
    ensures
        step == spacing(n as nat),
        step >= 1,
        step == 1 || step * 0x10_0000_0000_0000 <= n,
    decreases n,
{
    if n < 0x20_0000_0000_0000 {
        1
    } else {
        2 * spacing_near(n / 2)
    }
}

/// Computes [`in_53_bits`].
fn to_53_bits(bytes: u64) -> (value: u128)
    ensures
        value == in_53_bits(bytes as nat),
        value <= 2 * bytes,
{
    let step: u128 = spacing_near(bytes) as u128;
    let count: u128 = rounded_quotient(bytes as u128, step);
    proof {
        let b = bytes as int;
        let s = step as int;
        assert(b == s * (b / s) + b % s && 0 <= b % s < s) by (nonlinear_arith)
            requires
                s > 0,
                b >= 0,
        ;
        assert((b / s + 1) * s == s * (b / s) + s) by (nonlinear_arith);
        assert((b / s) * s == s * (b / s)) by (nonlinear_arith);
    }
    count * step
}

/// Computes [`unit_index`].
fn unit_of(bytes: u64) -> (index: u8)
    ensures
        index == unit_index(bytes as nat),
        index <= 4,
{
    reveal_with_fuel(log_1024, 8);
    if bytes < 0x400 {
        0
    } else if bytes < 0x10_0000 {
        1
    } else if bytes < 0x4000_0000 {
        2
    } else if bytes < 0x100_0000_0000 {
        3
    } else {
        4
    }
}

/// Converts bytes into human readable format like 2.5K
pub fn bytes_to_human(bytes: u64) -> (text: String)
    ensures
        text@ == human_size(bytes as nat),
{
    let mut text = String::new();
    if bytes < 1024 {
        push_decimal(&mut text, bytes as u128);
        text.push('B');
        assert(text@ =~= human_size(bytes as nat));
        return text;
    }
    let index = unit_of(bytes);
    reveal_with_fuel(unit_size, 5);
    let (size, letter): (u128, char) = if index == 1 {
        (0x400, 'K')
    } else if index == 2 {
        (0x10_0000, 'M')
    } else if index == 3 {
        (0x4000_0000, 'G')
    } else {
        (0x100_0000_0000, 'T')
    };
    let tenths: u128 = rounded_quotient(to_53_bits(bytes) * 10, size);
    push_decimal(&mut text, tenths / 10);
    text.push('.');
    text.push(digit((tenths % 10) as u8));
    text.push(letter);
    assert(text@ =~= human_size(bytes as nat));
    text
}

/// Fills `src` up with spaces behind it to `width` characters; longer text is kept whole.
pub fn pad_str(src: String, width: usize) -> (text: String)
    ensures
        text@ == padded(src@, width as nat),
{
    let mut text = src;
    let len = text.as_str().unicode_len();
    if len < width {
        push_repeated(&mut text, ' ', width - len);
    }
    text
}

/// The size of an entry as a listing shows it: with a unit, or as the plain count.
pub open spec fn size_text(entry: Entry, human: bool) -> Seq<char> {
    if human {
        human_size(entry.metadata.size as nat)
    } else {
        decimal(entry.metadata.size as nat)
    }
}

/// How wide each entry's size is, entry by entry.
pub open spec fn size_widths(entries: Seq<Entry>, human: bool) -> Seq<nat> {
    Seq::new(entries.len(), |i: int| size_text(entries[i], human).len())
}

/// How wide each entry's count of links is, entry by entry.
pub open spec fn link_widths(entries: Seq<Entry>) -> Seq<nat> {
    Seq::new(entries.len(), |i: int| decimal(entries[i].metadata.links as nat).len())
}

/// Whether `width` is the greatest of `widths`, or `fallback` where there are none.
pub open spec fn is_widest(width: nat, widths: Seq<nat>, fallback: nat) -> bool {
    if widths.len() == 0 {
        width == fallback
    } else {
        &&& forall|i: int| 0 <= i < widths.len() ==> #[trigger] widths[i] <= width
        &&& exists|i: int| 0 <= i < widths.len() && #[trigger] widths[i] == width
    }
}

/// The size of an entry as text.
fn size_string(entry: &Entry, human: bool) -> (text: String)
    ensures
        text@ == size_text(*entry, human),
{
    if human {
        bytes_to_human(entry.get_size())
    } else {
        decimal_string(entry.get_size())
    }
}

/// Finds the widths of the size column and of the link-count column: the widest text
/// that any entry has there, and 6 and 2 where there are no entries.
pub fn calculate_format_sizes(entries: &Vec<Entry>, flags: &Flags) -> (sizes: FormatSizes)
    ensures
        is_widest(sizes.file_len as nat, size_widths(entries@, flags.human), 6),
        is_widest(sizes.sym_len as nat, link_widths(entries@), 2),
{
    if entries.len() == 0 {
        return FormatSizes { file_len: 6, sym_len: 2 };
    }
    let ghost sizes = size_widths(entries@, flags.human);
    let ghost links = link_widths(entries@);
    let mut file_len: usize = size_string(&entries[0], flags.human).as_str().unicode_len();
    let mut sym_len: usize = entries[0].get_links().as_str().unicode_len();
    let ghost mut widest_size: int = 0;
    let ghost mut widest_links: int = 0;
    let mut index: usize = 1;
    while index < entries.len()
        invariant
            1 <= index <= entries.len(),
            sizes == size_widths(entries@, flags.human),
            links == link_widths(entries@),
            0 <= widest_size < index && sizes[widest_size] == file_len,
            0 <= widest_links < index && links[widest_links] == sym_len,
            forall|i: int| 0 <= i < index ==> #[trigger] sizes[i] <= file_len,
            forall|i: int| 0 <= i < index ==> #[trigger] links[i] <= sym_len,
        decreases entries.len() - index,
    {
        let size_width = size_string(&entries[index], flags.human).as_str().unicode_len();
        let link_width = entries[index].get_links().as_str().unicode_len();
        assert(sizes[index as int] == size_width);
        assert(links[index as int] == link_width);
        if size_width > file_len {
            file_len = size_width;
            proof {
                widest_size = index as int;
            }
        }
        if link_width > sym_len {
            sym_len = link_width;
            proof {
                widest_links = index as int;
            }
        }
        index = index + 1;
    }
    FormatSizes { file_len, sym_len }
}

/// The colours that names are shown in.
#[derive(Debug, Clone, Copy, PartialEq, Eq, Structural)]
pub enum Tint {
    Red,
    Green,
    Yellow,
    Blue,
    Magenta,
    Cyan,
}

/// The escape sequence that switches a terminal to the style with this code.
pub open spec fn escape(code: Seq<char>) -> Seq<char> {
    seq!['\x1b', '['] + code + seq!['m']
}

/// The escape sequence that switches a terminal back to its plain style.
pub open spec fn reset() -> Seq<char> {
    seq!['\x1b', '[', '0', 'm']
}

/// `text` with `style` put in again behind every reset sequence that it holds, so
/// that the style goes on where text shown in it resets the terminal.
pub open spec fn restyled(text: Seq<char>, style: Seq<char>) -> Seq<char>
    decreases text.len(),
{
    if text.len() < 4 {
        text
    } else if text.take(4) == reset() {
        reset() + style + restyled(text.skip(4), style)
    } else {
        seq![text[0]] + restyled(text.skip(1), style)
    }
}

/// The code of a colour as the colour of text.
pub open spec fn tint_code(tint: Tint) -> Seq<char> {
    match tint {
        Tint::Red => seq!['3', '1'],
        Tint::Green => seq!['3', '2'],
        Tint::Yellow => seq!['3', '3'],
        Tint::Blue => seq!['3', '4'],
        Tint::Magenta => seq!['3', '5'],
        Tint::Cyan => seq!['3', '6'],
    }
}

/// The code of bold red, the style of directories.
pub open spec fn bold_red_code() -> Seq<char> {
    seq!['1', ';', '3', '1']
}

/// `text` in the style with this code: between the style's escape sequence and the
/// reset, with the style put in again behind every reset within the text.
pub open spec fn painted(text: Seq<char>, code: Seq<char>) -> Seq<char> {
    escape(code) + restyled(text, escape(code)) + reset()
}

/// Whether `shown` is `text` in the style with this code, as it comes out on some
/// terminal: `text` itself where colours are off, and painted where they are on.
pub open spec fn is_painted(text: Seq<char>, code: Seq<char>, shown: Seq<char>) -> bool {
    shown == text || shown == painted(text, code)
}

/// Text that holds no escape character is painted by putting it between the style's
/// escape sequence and the reset.
pub proof fn lemma_painted_plain_text(text: Seq<char>, code: Seq<char>)
    requires
        forall|i: int| 0 <= i < text.len() ==> text[i] != '\x1b',
    ensures
        painted(text, code) == escape(code) + text + reset(),
{
    lemma_restyled_plain_text(text, escape(code));
}

proof fn lemma_restyled_plain_text(text: Seq<char>, style: Seq<char>)
    requires
        forall|i: int| 0 <= i < text.len() ==> text[i] != '\x1b',
    ensures
        restyled(text, style) == text,
    decreases text.len(),
{
    if text.len() >= 4 {
        assert(text.take(4)[0] == text[0]);
        assert(reset()[0] == '\x1b');
        lemma_restyled_plain_text(text.skip(1), style);
        assert(seq![text[0]] + text.skip(1) =~= text);
    }
}


/// `colored::Colorize::bold` and `red`, formatted: the text in bold red where colours
/// are on (`colored` decides that from the environment and the terminal), else the text
/// itself. In colour it is `ESC[1;31m`, the text and `ESC[0m`, and behind every `ESC[0m`
/// within the text `colored` puts `ESC[1;31m` again.
#[verifier::external_body]
fn paint_bold_red(text: &str) -> (shown: String)
    ensures
        is_painted(text@, bold_red_code(), shown@),
{
    colored::Colorize::red(colored::Colorize::bold(text)).to_string()
}

/// `colored::Colorize::color`, formatted: the text in the given colour where colours are
/// on, else the text itself. In colour it is `ESC[`, the colour's code (31 to 36), `m`,
/// the text and `ESC[0m`, and behind every `ESC[0m` within the text `colored` puts the
/// colour's escape sequence again.
#[verifier::external_body]
fn paint(text: &str, tint: Tint) -> (shown: String)
    ensures
        is_painted(text@, tint_code(tint), shown@),
{
    let color = match tint {
        Tint::Red => colored::Color::Red,
        Tint::Green => colored::Color::Green,
        Tint::Yellow => colored::Color::Yellow,
        Tint::Blue => colored::Color::Blue,
        Tint::Magenta => colored::Color::Magenta,
        Tint::Cyan => colored::Color::Cyan,
    };
    colored::Colorize::color(text, color).to_string()
}

/// The top-level media type that `mime_guess` finds for a file name by its extension,
/// `None` where it finds none.
pub uninterp spec fn guessed_media_type(name: Seq<char>) -> Option<Seq<char>>;

/// `mime_guess::from_path(..).first()` and `Mime::type_`: the first media type listed for
/// the name's extension, of which the part before the slash is returned. The lookup reads
/// a table that is part of `mime_guess`; the contract names its result.
#[verifier::external_body]
fn media_type(name: &str) -> (kind: Option<String>)
    ensures
        optional_text(kind) == guessed_media_type(name@),
{
    mime_guess::from_path(name).first().map(|mime| mime.type_().as_str().to_string())
}

/// The colour for a media type: images blue, text yellow, applications green, video
/// cyan, everything else and the unknown magenta.
pub open spec fn tint_for(media: Option<Seq<char>>) -> Tint {
    match media {
        Some(kind) => if kind == "image"@ {
            Tint::Blue
        } else if kind == "text"@ {
            Tint::Yellow
        } else if kind == "application"@ {
            Tint::Green
        } else if kind == "video"@ {
            Tint::Cyan
        } else {
            Tint::Magenta
        },
        None => Tint::Magenta,
    }
}

/// The colour for a media type that was looked up.
pub fn tint_of(media: &Option<String>) -> (tint: Tint)
    ensures
        tint == tint_for(optional_text(*media)),
{
    match media {
        Some(kind) => {
            if *kind == String::from_str("image") {
                Tint::Blue
            } else if *kind == String::from_str("text") {
                Tint::Yellow
            } else if *kind == String::from_str("application") {
                Tint::Green
            } else if *kind == String::from_str("video") {
                Tint::Cyan
            } else {
                Tint::Magenta
            }
        },
        None => Tint::Magenta,
    }
}

/// The colour in which a file of this name is shown.
pub fn name_tint(name: &str) -> (tint: Tint)
    ensures
        tint == tint_for(guessed_media_type(name@)),
{
    let media = media_type(name);
    tint_of(&media)
}

/// The code of the style in which an entry's name is shown.
pub open spec fn style_code(entry: Entry) -> Seq<char> {
    if entry.kind is Dir {
        bold_red_code()
    } else {
        tint_code(tint_for(guessed_media_type(entry.name_text())))
    }
}

/// The texts of an entry that the machine decides: who owns it, when it was changed in
/// local time, and its name as the terminal takes it.
#[derive(Debug)]
pub struct Labels {
    /// Owner and group; empty where the listing does not show them.
    pub owners: String,
    /// Time of the last change; empty where the listing does not show it.
    pub modified: String,
    /// The name, in colour where the listing shows colours.
    pub name: String,
}

impl Entry {
    /// Whether `labels` can be the labels of this entry under `flags`. A stream shows the
    /// bare name; every other listing shows it in the entry's style. Owners and time are
    /// there for a long listing and empty otherwise.
    pub open spec fn labels_fit(self, flags: Flags, labels: Labels) -> bool {
        &&& if flags.stream_output {
            labels.name@ == self.name_text()
        } else {
            is_painted(self.name_text(), style_code(self), labels.name@)
        }
        &&& if flags.long_listing && !flags.stream_output {
            &&& is_owners_text(self.metadata, labels.owners@)
            &&& self.is_modified_text(labels.modified@)
        } else {
            &&& labels.owners@ == Seq::<char>::empty()
            &&& labels.modified@ == Seq::<char>::empty()
        }
    }

    /// The columns of a long listing in front of the name, each followed by one space:
    /// permissions, links, owners, size and time of the last change.
    pub open spec fn long_text(
        self,
        human: bool,
        sizes: FormatSizes,
        owners: Seq<char>,
        modified: Seq<char>,
    ) -> Seq<char> {
        permission_text(self.metadata.mode) + seq![' '] + padded(
            decimal(self.metadata.links as nat),
            sizes.sym_len as nat,
        ) + seq![' '] + owners + seq![' '] + padded(size_text(self, human), sizes.file_len as nat)
            + seq![' '] + modified + seq![' ']
    }

    /// The text of one entry. A stream shows the name alone. Otherwise the columns of a
    /// long listing come first where they are asked for; a directory then has its name
    /// and a slash, a file its size and a tab, where sizes are asked for and no long
    /// listing has shown them, and then its name.
    pub open spec fn text(self, flags: Flags, sizes: FormatSizes, labels: Labels) -> Seq<char> {
        if flags.stream_output {
            labels.name@
        } else {
            (if flags.long_listing {
                self.long_text(flags.human, sizes, labels.owners@, labels.modified@)
            } else {
                Seq::empty()
            }) + (if self.kind is Dir {
                labels.name@ + seq!['/']
            } else {
                (if flags.show_size && !flags.long_listing {
                    size_text(self, flags.human) + seq!['\t']
                } else {
                    Seq::empty()
                }) + labels.name@
            })
        }
    }

    /// Asks the machine for the labels of this entry that a listing under `flags` shows.
    pub fn labels(&self, flags: &Flags) -> (labels: Labels)
        ensures
            self.labels_fit(*flags, labels),
    {
        let plain = self.get_name();
        if flags.stream_output {
            return Labels { owners: String::new(), modified: String::new(), name: plain };
        }
        let name = if self.is_folder() {
            paint_bold_red(plain.as_str())
        } else {
            let tint = name_tint(plain.as_str());
            paint(plain.as_str(), tint)
        };
        if flags.long_listing {
            Labels { owners: self.get_owners(), modified: self.get_modified_time(), name }
        } else {
            Labels { owners: String::new(), modified: String::new(), name }
        }
    }

    /// The columns of a long listing in front of the name.
    fn long_string(&self, human: bool, sizes: &FormatSizes, labels: &Labels) -> (text: String)
        ensures
            text@ == self.long_text(human, *sizes, labels.owners@, labels.modified@),
    {
        let mut text = self.get_permissions();
        text.push(' ');
        text.append(pad_str(self.get_links(), sizes.sym_len).as_str());
        text.push(' ');
        text.append(labels.owners.as_str());
        text.push(' ');
        text.append(pad_str(size_string(self, human), sizes.file_len).as_str());
        text.push(' ');
        text.append(labels.modified.as_str());
        text.push(' ');
        assert(text@ =~= self.long_text(human, *sizes, labels.owners@, labels.modified@));
        text
    }

    /// What a listing that is no stream shows of the entry behind the columns of a long
    /// listing.
    fn short_string(&self, flags: &Flags, labels: &Labels) -> (text: String)
        ensures
            text@ == if self.kind is Dir {
                labels.name@ + seq!['/']
            } else {
                (if flags.show_size && !flags.long_listing {
                    size_text(*self, flags.human) + seq!['\t']
                } else {
                    Seq::<char>::empty()
                }) + labels.name@
            },
    {
        let mut text = String::new();
        if self.is_folder() {
            // Skip sizes on directories
            text.append(labels.name.as_str());
            text.push('/');
            assert(text@ =~= labels.name@ + seq!['/']);
            return text;
        }
        if flags.show_size && !flags.long_listing {
            text.append(size_string(self, flags.human).as_str());
            text.push('\t');
            text.append(labels.name.as_str());
            assert(text@ =~= size_text(*self, flags.human) + seq!['\t'] + labels.name@);
            return text;
        }
        // Entries are color coded based on file type
        text.append(labels.name.as_str());
        assert(text@ =~= Seq::<char>::empty() + labels.name@);
        text
    }

    /// Writes the entry into `writer` with the given labels.
    pub fn print_labelled(
        &self,
        writer: &mut String,
        flags: &Flags,
        sizes: &FormatSizes,
        labels: &Labels,
    )
        ensures
            final(writer)@ == old(writer)@ + self.text(*flags, *sizes, *labels),
    {
        // stream_output flag returns the files and directories as a comma separated list
        if flags.stream_output {
            writer.append(labels.name.as_str());
            return ;
        }
        let short = self.short_string(flags, labels);
        if flags.long_listing {
            let long = self.long_string(flags.human, sizes, labels);
            writer.append(long.as_str());
            writer.append(short.as_str());
            assert(writer@ =~= old(writer)@ + (long@ + short@));
        } else {
            writer.append(short.as_str());
            assert(writer@ =~= old(writer)@ + (Seq::<char>::empty() + short@));
        }
    }

    /// Prints the file or directory into writer depending on the flags
    pub fn print_entry(&self, writer: &mut String, flags: &Flags, sizes: &FormatSizes)
        ensures
            exists|labels: Labels| #[trigger]
                self.labels_fit(*flags, labels) && final(writer)@ == old(writer)@ + self.text(
                    *flags,
                    *sizes,
                    labels,
                ),
    {
        let labels = self.labels(flags);
        self.print_labelled(writer, flags, sizes, &labels);
    }
}

/// The text of the entry at place `index` of a listing. In a stream every entry but the
/// first has a comma and a space in front of it; otherwise a line break follows each.
pub open spec fn item_text(
    entry: Entry,
    index: int,
    flags: Flags,
    sizes: FormatSizes,
    labels: Labels,
) -> Seq<char> {
    (if index != 0 && flags.stream_output {
        seq![',', ' ']
    } else {
        Seq::empty()
    }) + entry.text(flags, sizes, labels) + (if flags.stream_output {
        Seq::empty()
    } else {
        seq!['\n']
    })
}

/// The text of a whole listing: the texts of its entries in their order.
pub open spec fn listing_text(
    entries: Seq<Entry>,
    flags: Flags,
    sizes: FormatSizes,
    labels: Seq<Labels>,
) -> Seq<char>
    decreases entries.len(),
{
    if entries.len() == 0 {
        Seq::empty()
    } else {
        listing_text(entries.drop_last(), flags, sizes, labels.drop_last()) + item_text(
            entries.last(),
            entries.len() - 1,
            flags,
            sizes,
            labels[entries.len() - 1],
        )
    }
}

/// Whether `labels` holds labels for each of `entries`, in their order.
pub open spec fn all_labels_fit(entries: Seq<Entry>, flags: Flags, labels: Seq<Labels>) -> bool {
    &&& labels.len() == entries.len()
    &&& forall|i: int| 0 <= i < entries.len() ==> (#[trigger] entries[i]).labels_fit(flags, labels[i])
}

/// Whether `sizes` holds the column widths for `entries`.
pub open spec fn sizes_fit(entries: Seq<Entry>, flags: Flags, sizes: FormatSizes) -> bool {
    &&& is_widest(sizes.file_len as nat, size_widths(entries, flags.human), 6)
    &&& is_widest(sizes.sym_len as nat, link_widths(entries), 2)
}

/// Writes the entry at place `index` of a listing into `writer`, with what separates it
/// from its neighbours.
pub fn print_item(
    entry: &Entry,
    index: usize,
    writer: &mut String,
    flags: &Flags,
    sizes: &FormatSizes,
    labels: &Labels,
)
    ensures
        final(writer)@ == old(writer)@ + item_text(*entry, index as int, *flags, *sizes, *labels),
{
    // Comma separate
    if index != 0 && flags.stream_output {
        writer.push(',');
        writer.push(' ');
    }
    entry.print_labelled(writer, flags, sizes, labels);
    if !flags.stream_output {
        writer.push('\n');
    }
    assert(writer@ =~= old(writer)@ + item_text(*entry, index as int, *flags, *sizes, *labels));
}

/// Writes a listing into `writer`, with the given labels for its entries.
pub fn print_labelled_entries(
    entries: &Vec<Entry>,
    flags: &Flags,
    labels: &Vec<Labels>,
    writer: &mut String,
)
    requires
        labels.len() == entries.len(),
    ensures
        exists|sizes: FormatSizes| #[trigger]
            sizes_fit(entries@, *flags, sizes) && final(writer)@ == old(writer)@ + listing_text(
                entries@,
                *flags,
                sizes,
                labels@,
            ),
{
    // Get relevant formatting string lengths
    let sizes = calculate_format_sizes(entries, flags);
    let mut index: usize = 0;
    while index < entries.len()
        invariant
            index <= entries.len(),
            labels.len() == entries.len(),
            writer@ == old(writer)@ + listing_text(
                entries@.take(index as int),
                *flags,
                sizes,
                labels@.take(index as int),
            ),
        decreases entries.len() - index,
    {
        print_item(&entries[index], index, writer, flags, &sizes, &labels[index]);
        proof {
            let upto = entries@.take(index + 1);
            assert(upto.drop_last() =~= entries@.take(index as int));
            assert(labels@.take(index + 1).drop_last() =~= labels@.take(index as int));
            assert(writer@ =~= old(writer)@ + listing_text(
                upto,
                *flags,
                sizes,
                labels@.take(index + 1),
            ));
        }
        index = index + 1;
    }
    assert(entries@.take(entries.len() as int) =~= entries@);
    assert(labels@.take(entries.len() as int) =~= labels@);
    assert(sizes_fit(entries@, *flags, sizes));
}

/// Writes a listing into `writer`: the entries in the order given, each with the labels
/// that the machine gives it.
pub fn print_entries(entries: Vec<Entry>, flags: Flags, writer: &mut String)
    ensures
        exists|sizes: FormatSizes, labels: Seq<Labels>| #[trigger]
            sizes_fit(entries@, flags, sizes) && #[trigger] all_labels_fit(entries@, flags, labels)
                && final(writer)@ == old(writer)@ + listing_text(entries@, flags, sizes, labels),
{
    let mut labels: Vec<Labels> = Vec::new();
    let mut index: usize = 0;
    while index < entries.len()
        invariant
            index <= entries.len(),
            all_labels_fit(entries@.take(index as int), flags, labels@),
        decreases entries.len() - index,
    {
        let next = entries[index].labels(&flags);
        proof {
            let upto = entries@.take(index + 1);
            let grown = labels@.push(next);
            assert forall|i: int| 0 <= i < upto.len() implies (#[trigger] upto[i]).labels_fit(
                flags,
                grown[i],
            ) by {
                if i < index {
                    assert(entries@.take(index as int)[i] == upto[i]);
                }
            }
        }
        labels.push(next);
        index = index + 1;
    }
    assert(entries@.take(entries.len() as int) =~= entries@);
    print_labelled_entries(&entries, &flags, &labels, writer);
}

} // verus!
