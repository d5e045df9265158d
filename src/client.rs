//! The client's decisions: what a line typed by the user asks for, and what
//! to do with a message that arrives.
use vstd::prelude::*;
use vstd::string::*;

use crate::message::{MessageType, MessageView};
use crate::timestamp::{current_time, format_timestamp, spec_format_timestamp, Timestamp};

verus! {

/// Whether `c` has the Unicode `White_Space` property.
pub open spec fn spec_is_white_space(c: char) -> bool {
    let u = c as u32;
    ||| 9 <= u <= 13
    ||| u == 32
    ||| u == 0x85
    ||| u == 0xA0
    ||| u == 0x1680
    ||| 0x2000 <= u <= 0x200A
    ||| u == 0x2028
    ||| u == 0x2029
    ||| u == 0x202F
    ||| u == 0x205F
    ||| u == 0x3000
}

/// `s` without its leading white space.
pub open spec fn spec_trim_start(s: Seq<char>) -> Seq<char>
    decreases s.len(),
{
    if s.len() > 0 && spec_is_white_space(s[0]) {
        spec_trim_start(s.drop_first())
    } else {
        s
    }
}

/// `s` without its trailing white space.
pub open spec fn spec_trim_end(s: Seq<char>) -> Seq<char>
    decreases s.len(),
{
    if s.len() > 0 && spec_is_white_space(s.last()) {
        spec_trim_end(s.drop_last())
    } else {
        s
    }
}

/// `s` without leading or trailing white space.
pub open spec fn spec_trim(s: Seq<char>) -> Seq<char> {
    spec_trim_end(spec_trim_start(s))
}

/// `s` begins with `p`.
pub open spec fn spec_starts_with(s: Seq<char>, p: Seq<char>) -> bool {
    p.len() <= s.len() && s.subrange(0, p.len() as int) == p
}

/// `s` ends with `p`.
pub open spec fn spec_ends_with(s: Seq<char>, p: Seq<char>) -> bool {
    p.len() <= s.len() && s.subrange(s.len() - p.len(), s.len() as int) == p
}

/// `s` with every copy of the non-empty `p` at its front taken off.
pub open spec fn spec_strip_all(s: Seq<char>, p: Seq<char>) -> Seq<char>
    decreases s.len(),
{
    if p.len() > 0 && spec_starts_with(s, p) {
        spec_strip_all(s.subrange(p.len() as int, s.len() as int), p)
    } else {
        s
    }
}

/// The command word that sends a file.
pub open spec fn spec_file_word() -> Seq<char> {
    seq!['.', 'f', 'i', 'l', 'e']
}

/// The command word that sends an image.
pub open spec fn spec_image_word() -> Seq<char> {
    seq!['.', 'i', 'm', 'a', 'g', 'e']
}

/// The command word that ends the client.
pub open spec fn spec_quit_word() -> Seq<char> {
    seq!['.', 'q', 'u', 'i', 't']
}

/// The only image suffix the client sends.
pub open spec fn spec_png_suffix() -> Seq<char> {
    seq!['.', 'p', 'n', 'g']
}

/// What a line typed by the user asks for.
#[derive(Debug, PartialEq, Eq)]
pub enum Command {
    /// Read the file at this path and send it.
    SendFile(String),
    /// Read the PNG image at this path and send it.
    SendImage(String),
    /// An image was asked for whose path does not end in `.png`; nothing is sent.
    NotPng(String),
    /// Stop the client.
    Quit,
    /// Send this text.
    SendText(String),
}

/// The mathematical value of a [`Command`].
pub enum CommandView {
    SendFile(Seq<char>),
    SendImage(Seq<char>),
    NotPng(Seq<char>),
    Quit,
    SendText(Seq<char>),
}

impl View for Command {
    type V = CommandView;

    open spec fn view(&self) -> CommandView {
        match self {
            Command::SendFile(p) => CommandView::SendFile(p@),
            Command::SendImage(p) => CommandView::SendImage(p@),
            Command::NotPng(p) => CommandView::NotPng(p@),
            Command::Quit => CommandView::Quit,
            Command::SendText(t) => CommandView::SendText(t@),
        }
    }
}

/// What a typed line asks for. The line is trimmed first; a line that then
/// starts with `.file` or `.image` names a path, which is the rest of the
/// line with the command word (repeated or not) and white space taken off.
pub open spec fn spec_parse_command(line: Seq<char>) -> CommandView {
    let t = spec_trim(line);
    if spec_starts_with(t, spec_file_word()) {
        CommandView::SendFile(spec_trim(spec_strip_all(t, spec_file_word())))
    } else if spec_starts_with(t, spec_image_word()) {
        let path = spec_trim(spec_strip_all(t, spec_image_word()));
        if spec_ends_with(path, spec_png_suffix()) {
            CommandView::SendImage(path)
        } else {
            CommandView::NotPng(path)
        }
    } else if spec_starts_with(t, spec_quit_word()) {
        CommandView::Quit
    } else {
        CommandView::SendText(t)
    }
}

/// Whether `c` has the Unicode `White_Space` property.
pub fn is_white_space(c: char) -> (r: bool)
    ensures
        r == spec_is_white_space(c),
{
    let u = c as u32;
    (9 <= u && u <= 13) || u == 32 || u == 0x85 || u == 0xA0 || u == 0x1680 || (0x2000 <= u && u
        <= 0x200A) || u == 0x2028 || u == 0x2029 || u == 0x202F || u == 0x205F || u == 0x3000
}

/// `s` without leading or trailing white space.
pub fn trim(s: &str) -> (r: &str)
    ensures
        r@ == spec_trim(s@),
{
    let n = s.unicode_len();
    let mut i: usize = 0;
    assert(s@.subrange(0, n as int) =~= s@);
    while i < n && is_white_space(s.get_char(i))
        invariant
            n == s@.len(),
            i <= n,
            spec_trim_start(s@) == spec_trim_start(s@.subrange(i as int, n as int)),
        decreases n - i,
    {
        assert(s@.subrange(i as int, n as int).drop_first() =~= s@.subrange(i + 1, n as int));
        i = i + 1;
    }
    assert(spec_trim_start(s@) == s@.subrange(i as int, n as int));
    let mut j: usize = n;
    while j > i && is_white_space(s.get_char(j - 1))
        invariant
            n == s@.len(),
            i <= j <= n,
            spec_trim(s@) == spec_trim_end(s@.subrange(i as int, j as int)),
        decreases j,
    {
        assert(s@.subrange(i as int, j as int).drop_last() =~= s@.subrange(i as int, j - 1));
        j = j - 1;
    }
    s.substring_char(i, j)
}

/// Whether `s` has `p` at position `at`.
fn has_at(s: &str, at: usize, p: &str) -> (r: bool)
    requires
        at <= s@.len(),
    ensures
        r == spec_starts_with(s@.subrange(at as int, s@.len() as int), p@),
{
    let n = s.unicode_len();
    let m = p.unicode_len();
    if m > n - at {
        return false;
    }
    let mut k: usize = 0;
    while k < m
        invariant
            n == s@.len(),
            m == p@.len(),
            at + m <= n,
            k <= m,
            s@.subrange(at as int, at + k) =~= p@.subrange(0, k as int),
        decreases m - k,
    {
        if s.get_char(at + k) != p.get_char(k) {
            assert(s@.subrange(at as int, n as int).subrange(0, m as int)[k as int] != p@[k as int]);
            return false;
        }
        k = k + 1;
    }
    assert(s@.subrange(at as int, n as int).subrange(0, m as int) =~= s@.subrange(at as int, at + m));
    assert(p@.subrange(0, m as int) =~= p@);
    true
}

/// Whether `s` begins with `p`.
pub fn starts_with(s: &str, p: &str) -> (r: bool)
    ensures
        r == spec_starts_with(s@, p@),
{
    assert(s@.subrange(0, s@.len() as int) =~= s@);
    has_at(s, 0, p)
}

/// Whether `s` ends with `p`.
pub fn ends_with(s: &str, p: &str) -> (r: bool)
    ensures
        r == spec_ends_with(s@, p@),
{
    let n = s.unicode_len();
    let m = p.unicode_len();
    if m > n {
        return false;
    }
    let r = has_at(s, n - m, p);
    assert(s@.subrange(n - m, n as int).subrange(0, m as int) =~= s@.subrange(n - m, n as int));
    r
}

/// `s` with every copy of the non-empty `p` at its front taken off.
pub fn strip_all<'a>(s: &'a str, p: &str) -> (r: &'a str)
    requires
        p@.len() > 0,
    ensures
        r@ == spec_strip_all(s@, p@),
{
    let n = s.unicode_len();
    let m = p.unicode_len();
    let mut i: usize = 0;
    assert(s@.subrange(0, n as int) =~= s@);
    while has_at(s, i, p)
        invariant
            n == s@.len(),
            m == p@.len(),
            m > 0,
            i <= n,
            spec_strip_all(s@, p@) == spec_strip_all(s@.subrange(i as int, n as int), p@),
        decreases n - i,
    {
        assert(s@.subrange(i as int, n as int).subrange(m as int, n - i) =~= s@.subrange(
            i + m,
            n as int,
        ));
        i = i + m;
    }
    s.substring_char(i, n)
}

/// What a line typed by the user asks for.
pub fn parse_command(line: &str) -> (r: Command)
    ensures
        r@ == spec_parse_command(line@),
{
    let file_word = ".file";
    let image_word = ".image";
    let quit_word = ".quit";
    let png = ".png";
    proof {
        reveal_strlit(".file");
        reveal_strlit(".image");
        reveal_strlit(".quit");
        reveal_strlit(".png");
        assert(file_word@ =~= spec_file_word());
        assert(image_word@ =~= spec_image_word());
        assert(quit_word@ =~= spec_quit_word());
        assert(png@ =~= spec_png_suffix());
    }
    let t = trim(line);
    if starts_with(t, file_word) {
        Command::SendFile(trim(strip_all(t, file_word)).to_owned())
    } else if starts_with(t, image_word) {
        let path = trim(strip_all(t, image_word));
        if ends_with(path, png) {
            Command::SendImage(path.to_owned())
        } else {
            Command::NotPng(path.to_owned())
        }
    } else if starts_with(t, quit_word) {
        Command::Quit
    } else {
        Command::SendText(t.to_owned())
    }
}

/// The folder in which a received payload is stored.
#[derive(Debug, Clone, Copy, PartialEq, Eq, Structural)]
pub enum Folder {
    Images,
    Files,
}

/// The name of a folder on disk.
pub open spec fn spec_folder_name(f: Folder) -> Seq<char> {
    match f {
        Folder::Images => seq!['i', 'm', 'a', 'g', 'e', 's'],
        Folder::Files => seq!['f', 'i', 'l', 'e', 's'],
    }
}

impl Folder {
    /// The name of the folder on disk: `images` or `files`.
    pub fn name(&self) -> (r: &'static str)
        ensures
            r@ == spec_folder_name(*self),
    {
        match self {
            Folder::Images => {
                proof {
                    reveal_strlit("images");
                }
                let r = "images";
                assert(r@ =~= spec_folder_name(*self));
                r
            },
            Folder::Files => {
                proof {
                    reveal_strlit("files");
                }
                let r = "files";
                assert(r@ =~= spec_folder_name(*self));
                r
            },
        }
    }
}

/// What the client does with a message that arrives.
#[derive(Debug, PartialEq, Eq)]
pub enum ClientOutput {
    /// Print this text.
    Show(String),
    /// Write these bytes to a file of this name in this folder.
    Save { folder: Folder, name: String, data: Vec<u8> },
}

/// The mathematical value of a [`ClientOutput`].
pub enum ClientOutputView {
    Show(Seq<char>),
    Save(Folder, Seq<char>, Seq<u8>),
}

impl View for ClientOutput {
    type V = ClientOutputView;

    open spec fn view(&self) -> ClientOutputView {
        match self {
            ClientOutput::Show(t) => ClientOutputView::Show(t@),
            ClientOutput::Save { folder, name, data } => ClientOutputView::Save(
                *folder,
                name@,
                data@,
            ),
        }
    }
}

/// What to do with a message that arrives when the time is `timestamp`:
/// text is shown, an image is stored under the time with a `.png` suffix,
/// and a file under the name that it came with.
pub open spec fn spec_output_for(m: MessageView, timestamp: Seq<char>) -> ClientOutputView {
    match m {
        MessageView::Text(t) => ClientOutputView::Show(t),
        MessageView::Image(d) => ClientOutputView::Save(
            Folder::Images,
            timestamp + spec_png_suffix(),
            d,
        ),
        MessageView::File(n, d) => ClientOutputView::Save(Folder::Files, n, d),
    }
}

/// What to do with a message that arrives when the time is `timestamp`.
pub fn output_for(message: MessageType, timestamp: &str) -> (r: ClientOutput)
    ensures
        r@ == spec_output_for(message@, timestamp@),
{
    match message {
        MessageType::Text(t) => ClientOutput::Show(t),
        MessageType::Image(data) => {
            proof {
                reveal_strlit(".png");
            }
            let png = ".png";
            assert(png@ =~= spec_png_suffix());
            let mut name = timestamp.to_owned();
            name.append(png);
            ClientOutput::Save { folder: Folder::Images, name, data }
        },
        MessageType::File(name, data) => ClientOutput::Save { folder: Folder::Files, name, data },
    }
}

/// What to do with a message that arrives now: as [`output_for`], with the
/// current UTC time written as `%Y-%m-%d %H:%M:%S`.
pub fn receive(message: MessageType) -> (r: ClientOutput)
    ensures
        exists|t: Timestamp| t.wf() && r@ == spec_output_for(message@, spec_format_timestamp(t)),
{
    let now = current_time();
    let text = format_timestamp(now);
    output_for(message, text.as_str())
}

} // verus!
