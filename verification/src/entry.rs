//! Desktop entries: reading a descriptor file into the plain fields that the
//! catalog works on.
//!
//! The file format is decoded by the `freedesktop_desktop_entry` crate, and
//! so is the command line of an entry. Which keys are read, and what they
//! mean to the launcher, is decided here.

use crate::text::{has_char, opt_view, split, split_text, strings_view};
use freedesktop_desktop_entry::{DecodeError, DesktopEntry, ExecError};
use vstd::prelude::*;

verus! {

/// A decoded descriptor, as the `freedesktop_desktop_entry` crate holds it.
/// Nothing is known of what is in it but through the names below.
#[verifier::external_type_specification]
#[verifier::external_body]
pub struct ExDesktopEntry(freedesktop_desktop_entry::DesktopEntry);

/// Why the crate could not decode a descriptor. Nothing is known of it.
#[verifier::external_type_specification]
#[verifier::external_body]
pub struct ExDecodeError(freedesktop_desktop_entry::DecodeError);

/// Why the crate refused a command line. Nothing is known of it.
#[verifier::external_type_specification]
#[verifier::external_body]
pub struct ExExecError(freedesktop_desktop_entry::ExecError);

/// What the group `Desktop Entry` of a decoded entry holds: under a key and
/// no locale, the key's plain value; under a key and a locale, the value
/// that the file gives for that locale.
pub uninterp spec fn entry_values(entry: DesktopEntry) -> Map<
    (Seq<char>, Option<Seq<char>>),
    Seq<char>,
>;

/// The path that a decoded entry carries, as text.
pub uninterp spec fn entry_path(entry: DesktopEntry) -> Seq<char>;

/// What decoding the text `input` of a descriptor at `path` gives when only
/// `locale` is of interest: the values of its group `Desktop Entry`, or
/// nothing where the text is no well-formed descriptor.
pub uninterp spec fn decoded_values(path: Seq<char>, input: Seq<char>, locale: Seq<char>) -> Option<
    Map<(Seq<char>, Option<Seq<char>>), Seq<char>>,
>;

/// The program and arguments that the command line of an entry with these
/// values and this path tokenizes to, or nothing where it has no command
/// line or the command line is refused.
pub uninterp spec fn exec_arguments(
    values: Map<(Seq<char>, Option<Seq<char>>), Seq<char>>,
    path: Seq<char>,
) -> Option<Seq<Seq<char>>>;

/// The plain value of `key`.
pub open spec fn plain_value(
    values: Map<(Seq<char>, Option<Seq<char>>), Seq<char>>,
    key: Seq<char>,
) -> Option<Seq<char>> {
    if values.contains_key((key, None)) {
        Some(values[(key, None)])
    } else {
        None
    }
}

/// The value of `key` for `locale`: the localized value where the entry has
/// one, else the plain value. A key without a plain value has no value at all.
pub open spec fn localized_value(
    values: Map<(Seq<char>, Option<Seq<char>>), Seq<char>>,
    key: Seq<char>,
    locale: Seq<char>,
) -> Option<Seq<char>> {
    if !values.contains_key((key, None)) {
        None
    } else if values.contains_key((key, Some(locale))) {
        Some(values[(key, Some(locale))])
    } else {
        Some(values[(key, None)])
    }
}

/// Decodes the text of a descriptor file.
///
/// Trusted: this is `DesktopEntry::from_str` with a filter of one locale.
/// Whether it succeeds and what the group `Desktop Entry` then holds depends
/// on the three arguments alone; the contract names that result and says no
/// more of it. The entry keeps the path it was given.
#[verifier::external_body]
fn decode_entry(path: &str, input: &str, locale: &str) -> (r: Result<DesktopEntry, DecodeError>)
    ensures
        r is Ok <==> decoded_values(path@, input@, locale@) is Some,
        r matches Ok(entry) ==> decoded_values(path@, input@, locale@) == Some(entry_values(entry))
            && entry_path(entry) == path@,
{
    DesktopEntry::from_str(path, input, Some(&[locale]))
}

/// The plain value of a key of the group `Desktop Entry`.
///
/// Trusted: this is `DesktopEntry::desktop_entry`, a look-up of the key's
/// plain value in that group.
#[verifier::external_body]
fn entry_value(entry: &DesktopEntry, key: &str) -> (r: Option<String>)
    ensures
        opt_view(r) == plain_value(entry_values(*entry), key@),
{
    entry.desktop_entry(key).map(String::from)
}

/// The value of a key of the group `Desktop Entry` for one locale.
///
/// Trusted: this is `DesktopEntry::desktop_entry_localized` with one locale.
/// For a locale without an underscore it gives the value for that locale
/// where the entry has one, else the plain value, and nothing for a key
/// without a plain value. (The crate is built without its `gettext` feature.)
#[verifier::external_body]
fn entry_localized(entry: &DesktopEntry, key: &str, locale: &str) -> (r: Option<String>)
    requires
        !has_char(locale@, '_'),
    ensures
        opt_view(r) == localized_value(entry_values(*entry), key@, locale@),
{
    entry.desktop_entry_localized(key, &[locale]).map(|value| value.into_owned())
}

/// The program and arguments of an entry's command line.
///
/// Trusted: this is `DesktopEntry::parse_exec`. Its result depends on the
/// entry's values and path alone; the contract names it, and adds what the
/// crate's source shows: a command line that is accepted has a token.
#[verifier::external_body]
fn entry_arguments(entry: &DesktopEntry) -> (r: Result<Vec<String>, ExecError>)
    ensures
        r is Ok <==> exec_arguments(entry_values(*entry), entry_path(*entry)) is Some,
        r matches Ok(arguments) ==> arguments.len() > 0 && exec_arguments(
            entry_values(*entry),
            entry_path(*entry),
        ) == Some(strings_view(arguments@)),
{
    entry.parse_exec()
}

/// What a descriptor file says of an application, field by field.
#[derive(Debug)]
pub struct Descriptor {
    /// The display name, if the descriptor gives one.
    pub name: Option<String>,
    /// The command line as written, if the descriptor gives one.
    pub command: Option<String>,
    /// The program and arguments that the command line tokenizes to, if it does.
    pub arguments: Option<Vec<String>>,
    pub icon: Option<String>,
    pub comment: Option<String>,
    pub keywords: Vec<String>,
    pub terminal: bool,
    pub no_display: bool,
    pub hidden: bool,
}

/// A descriptor as specifications see it.
pub struct DescriptorView {
    pub name: Option<Seq<char>>,
    pub command: Option<Seq<char>>,
    pub arguments: Option<Seq<Seq<char>>>,
    pub icon: Option<Seq<char>>,
    pub comment: Option<Seq<char>>,
    pub keywords: Seq<Seq<char>>,
    pub terminal: bool,
    pub no_display: bool,
    pub hidden: bool,
}

impl View for Descriptor {
    type V = DescriptorView;

    open spec fn view(&self) -> DescriptorView {
        DescriptorView {
            name: opt_view(self.name),
            command: opt_view(self.command),
            arguments: match self.arguments {
                Some(arguments) => Some(strings_view(arguments@)),
                None => None,
            },
            icon: opt_view(self.icon),
            comment: opt_view(self.comment),
            keywords: strings_view(self.keywords@),
            terminal: self.terminal,
            no_display: self.no_display,
            hidden: self.hidden,
        }
    }
}

/// The descriptors of a list, as specifications see them.
pub open spec fn descriptors_view(descriptors: Seq<Descriptor>) -> Seq<DescriptorView> {
    Seq::new(descriptors.len(), |i: int| descriptors[i]@)
}

/// A descriptor that may be missing, as specifications see it.
pub open spec fn descriptor_opt_view(d: Option<Descriptor>) -> Option<DescriptorView> {
    match d {
        Some(d) => Some(d@),
        None => None,
    }
}

/// Whether a switch is on: its key has the plain value `true`.
pub open spec fn is_set(
    values: Map<(Seq<char>, Option<Seq<char>>), Seq<char>>,
    key: Seq<char>,
) -> bool {
    plain_value(values, key) == Some("true"@)
}

/// The keywords of an entry: the pieces of its `Keywords` value between
/// semicolons, or none where it has no such value.
pub open spec fn keywords_of(values: Map<(Seq<char>, Option<Seq<char>>), Seq<char>>) -> Seq<
    Seq<char>,
> {
    match localized_value(values, "Keywords"@, "en"@) {
        Some(value) => split(value, ';'),
        None => Seq::empty(),
    }
}

/// What an entry with these values and this path says of an application.
/// Names, comments and keywords are read for the locale `en`.
pub open spec fn descriptor_of(
    values: Map<(Seq<char>, Option<Seq<char>>), Seq<char>>,
    path: Seq<char>,
) -> DescriptorView {
    DescriptorView {
        name: localized_value(values, "Name"@, "en"@),
        command: plain_value(values, "Exec"@),
        arguments: exec_arguments(values, path),
        icon: plain_value(values, "Icon"@),
        comment: localized_value(values, "Comment"@, "en"@),
        keywords: keywords_of(values),
        terminal: is_set(values, "Terminal"@),
        no_display: is_set(values, "NoDisplay"@),
        hidden: is_set(values, "Hidden"@),
    }
}

/// What the descriptor file at `path` with the text `contents` says of an
/// application, or nothing where the text is no well-formed descriptor.
pub open spec fn decode_descriptor(path: Seq<char>, contents: Seq<char>) -> Option<DescriptorView> {
    match decoded_values(path, contents, "en"@) {
        Some(values) => Some(descriptor_of(values, path)),
        None => None,
    }
}

/// Whether a key of the entry is switched on.
fn entry_is_set(entry: &DesktopEntry, key: &str) -> (r: bool)
    ensures
        r == is_set(entry_values(*entry), key@),
{
    match entry_value(entry, key) {
        Some(value) => {
            let on = "true".to_owned();
            value == on
        },
        None => false,
    }
}

/// Reads the fields of a decoded entry.
fn describe(entry: &DesktopEntry) -> (d: Descriptor)
    ensures
        d@ == descriptor_of(entry_values(*entry), entry_path(*entry)),
{
    proof {
        reveal_strlit("en");
        assert(!has_char("en"@, '_')) by {
            let s = "en"@;
            assert(s.len() == 2 && s[0] == 'e' && s[1] == 'n');
            assert(s.skip(1).len() == 1 && s.skip(1)[0] == 'n');
            assert(s.skip(1).skip(1).len() == 0);
            reveal_with_fuel(crate::text::first_index, 3);
        }
    }
    let keywords = match entry_localized(entry, "Keywords", "en") {
        Some(value) => split_text(value.as_str(), ';'),
        None => Vec::new(),
    };
    assert(strings_view(keywords@) =~= keywords_of(entry_values(*entry)));
    let arguments = match entry_arguments(entry) {
        Ok(arguments) => Some(arguments),
        Err(_) => None,
    };
    Descriptor {
        name: entry_localized(entry, "Name", "en"),
        command: entry_value(entry, "Exec"),
        arguments,
        icon: entry_value(entry, "Icon"),
        comment: entry_localized(entry, "Comment", "en"),
        keywords,
        terminal: entry_is_set(entry, "Terminal"),
        no_display: entry_is_set(entry, "NoDisplay"),
        hidden: entry_is_set(entry, "Hidden"),
    }
}

/// Reads a descriptor file: `path` is where it lies, `contents` its text.
pub fn read_descriptor(path: &str, contents: &str) -> (d: Option<Descriptor>)
    ensures
        descriptor_opt_view(d) == decode_descriptor(path@, contents@),
{
    match decode_entry(path, contents, "en") {
        Ok(entry) => Some(describe(&entry)),
        Err(_) => None,
    }
}

} // verus!
