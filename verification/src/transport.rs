// SPDX-License-Identifier: Apache-2.0
//! The two sockets of a plugin process: the options they need and the places
//! they live.
//!
//! REQ/REP carries control, PUSH/PULL carries events.

use vstd::prelude::*;
use vstd::string::*;
use vstd::utf8;

use crate::error::{Error, IoError, IoErrorKind};
use crate::path;
use crate::path::join;
use crate::text;
use crate::text::{begins_with, decimal_string, four_hex_string};

verus! {

/// Largest `CaptureData.payload` a plugin should emit. The protocol's ceiling
/// is 4 MiB; staying well under it leaves room for run-length encoding, whose
/// worst case expands a chunk by one byte per sample.
pub const MAX_PAYLOAD: usize = 0x10_0000;

/// Applied to every socket rather than trusted to the default.
pub const RECV_MAX_SIZE: usize = 0x80_0000;

/// Seconds after which a send gives up.
pub const SEND_TIMEOUT: u64 = 30;

/// The four ends of the two sockets.
#[derive(Debug, Clone, Copy, PartialEq, Eq, Structural)]
pub enum Protocol {
    Req0,
    Rep0,
    Push0,
    Pull0,
}

/// The options of one socket.
#[derive(Debug, Clone, Copy, PartialEq, Eq, Structural)]
pub struct SocketOptions {
    pub recv_max_size: usize,
    /// In seconds.
    pub send_timeout: u64,
    /// In seconds; zero disables it. A socket that sends no requests has none.
    pub resend_time: Option<u64>,
}

/// The options every endpoint needs.
pub fn socket_options(protocol: Protocol) -> (options: SocketOptions)
    ensures
        options.recv_max_size == RECV_MAX_SIZE,
        options.send_timeout == SEND_TIMEOUT,
        options.resend_time == (if protocol == Protocol::Req0 {
            Some(0u64)
        } else {
            None
        }),
{
    // A request whose reply is slower than the resend timer is sent again, and
    // the far end runs it a second time. On a local socket the pipe either
    // exists or breaks, so resend buys nothing.
    let resend_time = if protocol == Protocol::Req0 {
        Some(0u64)
    } else {
        None
    };
    SocketOptions { recv_max_size: RECV_MAX_SIZE, send_timeout: SEND_TIMEOUT, resend_time }
}

/// The mode that restricts a socket to the current user.
pub const PRIVATE_SOCKET: u32 = 0o600;

/// The mode that restricts a directory to the current user.
pub const PRIVATE_DIRECTORY: u32 = 0o700;

/// The permissions to listen with on `url`, to be set before the listener
/// starts: an `ipc://` socket is restricted to the current user.
pub fn listen_permissions(url: &str) -> (mode: Option<u32>)
    ensures
        mode == (if "ipc://"@.is_prefix_of(url@) {
            Some(PRIVATE_SOCKET)
        } else {
            None
        }),
{
    if begins_with(url, "ipc://") {
        Some(PRIVATE_SOCKET)
    } else {
        None
    }
}

/// macOS allows 104 bytes including the terminator; budget against the tighter
/// of the two so a capture that works here works there.
pub const SUN_PATH_LIMIT: usize = 103;

/// The bytes that a path takes.
pub open spec fn byte_len(path: Seq<char>) -> nat {
    utf8::encode_utf8(path).len()
}

/// What is wrong with a socket path that is too long.
pub open spec fn overlong(path: Seq<char>) -> Seq<char> {
    "socket path is "@ + text::decimal(byte_len(path)) + " bytes, over the "@ + text::decimal(
        SUN_PATH_LIMIT as nat,
    ) + "-byte limit: "@ + path
}

/// A socket path has to fit the address it is bound to.
pub fn check_sun_path(path: &str) -> (r: Result<(), Error>)
    ensures
        byte_len(path@) <= SUN_PATH_LIMIT ==> r == Ok::<(), Error>(()),
        byte_len(path@) > SUN_PATH_LIMIT ==> (r matches Err(e) && e.is_protocol(overlong(path@))),
{
    let len: usize = path.as_bytes().len();
    if len > SUN_PATH_LIMIT {
        let mut message = "socket path is ".to_owned();
        message.append(decimal_string(len as u128).as_str());
        message.append(" bytes, over the ");
        message.append(decimal_string(SUN_PATH_LIMIT as u128).as_str());
        message.append("-byte limit: ");
        message.append(path);
        return Err(Error::Protocol(message));
    }
    Ok(())
}

/// A place for one plugin process's two sockets. The frontend owns it; the
/// plugin only ever sees the two URLs.
#[derive(Debug)]
pub struct Endpoints {
    pub control: String,
    pub events: String,
    /// The directory that holds the sockets, to be removed with them. Where
    /// `ipc://` is a named pipe in a flat namespace there is none.
    pub dir: Option<String>,
}

/// The directory that holds the sockets of every running plugin.
pub open spec fn base_dir(runtime: Seq<char>) -> Seq<char> {
    path::joined(runtime, "openmso"@)
}

/// The directory that holds the sockets of the plugin process with this tag.
pub open spec fn plugin_dir(runtime: Seq<char>, tag: u16) -> Seq<char> {
    path::joined(base_dir(runtime), text::four_hex(tag))
}

/// Where the control socket lives in a plugin's directory.
pub open spec fn control_path(dir: Seq<char>) -> Seq<char> {
    path::joined(dir, "ctl"@)
}

/// Where the event socket lives in a plugin's directory.
pub open spec fn events_path(dir: Seq<char>) -> Seq<char> {
    path::joined(dir, "evt"@)
}

/// `r` is what a directory comes to once it is there: its endpoints, unless a
/// socket in it would have an overlong path.
pub open spec fn is_settled(dir: Seq<char>, r: Result<Endpoints, Error>) -> bool {
    if byte_len(control_path(dir)) <= SUN_PATH_LIMIT {
        r matches Ok(endpoints) && {
            &&& endpoints.control@ == "ipc://"@ + control_path(dir)
            &&& endpoints.events@ == "ipc://"@ + events_path(dir)
            &&& endpoints.dir matches Some(d) && d@ == dir
        }
    } else {
        r matches Err(e) && e.is_protocol(overlong(control_path(dir)))
    }
}

fn plugin_dir_string(runtime: &str, tag: u16) -> (dir: String)
    ensures
        dir@ == plugin_dir(runtime@, tag),
{
    let base = join(runtime, "openmso");
    let digits = four_hex_string(tag);
    join(base.as_str(), digits.as_str())
}

impl Endpoints {
    /// The endpoints in a directory of their own, which is there by now.
    pub fn create(runtime: &str, tag: u16) -> (r: Result<Endpoints, Error>)
        ensures
            is_settled(plugin_dir(runtime@, tag), r),
    {
        let dir = plugin_dir_string(runtime, tag);
        let control = join(dir.as_str(), "ctl");
        match check_sun_path(control.as_str()) {
            Ok(_) => {},
            Err(e) => {
                return Err(e);
            },
        }
        let events = join(dir.as_str(), "evt");
        Ok(
            Endpoints {
                control: "ipc://".to_owned().concat(control.as_str()),
                events: "ipc://".to_owned().concat(events.as_str()),
                dir: Some(dir),
            },
        )
    }

    /// The endpoints where `ipc://` is a named pipe.
    pub fn pipes(tag: u16) -> (endpoints: Endpoints)
        ensures
            endpoints.control@ == "ipc://openmso-"@ + text::four_hex(tag) + "-ctl"@,
            endpoints.events@ == "ipc://openmso-"@ + text::four_hex(tag) + "-evt"@,
            endpoints.dir is None,
    {
        let digits = four_hex_string(tag);
        Endpoints {
            control: "ipc://openmso-".to_owned().concat(digits.as_str()).concat("-ctl"),
            events: "ipc://openmso-".to_owned().concat(digits.as_str()).concat("-evt"),
            dir: None,
        }
    }
}

/// How many directories are tried before giving up.
pub const ATTEMPTS: u16 = 64;

/// The tag that the search for a directory starts from: four hex digits of
/// process-and-clock entropy. The limit on a socket path is short, so the
/// random component has to stay short.
pub fn first_tag(nanos: u32, pid: u32) -> (tag: u16)
    ensures
        tag == (nanos ^ pid) & 0xffff,
{
    let mixed: u32 = nanos ^ pid;
    assert(mixed & 0xffff == (mixed & 0xffff) as u16) by (bit_vector);
    (mixed & 0xffff) as u16
}

/// The tag tried after so many others.
pub open spec fn tag_after(first: u16, tries: nat) -> u16 {
    ((first + tries) % 0x1_0000) as u16
}

/// The search for a free directory. The directories belong to a file system
/// that other frontends use too, so each is tried in turn.
#[derive(Debug)]
pub struct Search {
    runtime: String,
    tag: u16,
    left: u16,
}

/// What the search does next.
#[derive(Debug)]
pub enum Attempt {
    /// Make sure that `base` is there, then create `dir`, which must not be there
    /// yet. Both get this mode, `base` even where it was there before.
    Create { base: String, dir: String, mode: u32 },
    /// There is nothing left to try.
    GiveUp(Error),
}

impl Search {
    /// The directory that the search goes on in.
    pub closed spec fn runtime(&self) -> Seq<char> {
        self.runtime@
    }

    /// The tag of the next directory.
    pub closed spec fn tag(&self) -> u16 {
        self.tag
    }

    /// How many directories may still be tried.
    pub closed spec fn left(&self) -> u16 {
        self.left
    }

    /// Starts in the user's runtime directory.
    pub fn new(runtime: &str, first: u16) -> (search: Search)
        ensures
            search.runtime() == runtime@,
            search.tag() == first,
            search.left() == ATTEMPTS,
    {
        Search { runtime: runtime.to_owned(), tag: first, left: ATTEMPTS }
    }

    pub fn attempt(&self) -> (attempt: Attempt)
        ensures
            match attempt {
                Attempt::Create { base, dir, mode } => {
                    &&& self.left() > 0
                    &&& mode == PRIVATE_DIRECTORY
                    &&& base@ == base_dir(self.runtime())
                    &&& dir@ == plugin_dir(self.runtime(), self.tag())
                },
                Attempt::GiveUp(e) => self.left() == 0 && e.is_protocol(
                    "no free runtime directory"@,
                ),
            },
    {
        if self.left == 0 {
            return Attempt::GiveUp(Error::Protocol("no free runtime directory".to_owned()));
        }
        let base = join(self.runtime.as_str(), "openmso");
        let dir = plugin_dir_string(self.runtime.as_str(), self.tag);
        Attempt::Create { base, dir, mode: PRIVATE_DIRECTORY }
    }

    /// Takes what came of the last attempt. The search is over unless the
    /// directory was there already.
    pub fn settle(&mut self, outcome: Result<(), IoError>) -> (r: Option<Result<Endpoints, Error>>)
        requires
            old(self).left() > 0,
        ensures
            final(self).runtime() == old(self).runtime(),
            match outcome {
                Ok(_) => {
                    &&& r matches Some(settled)
                    &&& is_settled(plugin_dir(old(self).runtime(), old(self).tag()), settled)
                    &&& final(self).tag() == old(self).tag()
                    &&& final(self).left() == old(self).left()
                },
                Err(e) => if e.kind == IoErrorKind::AlreadyExists {
                    &&& r is None
                    &&& final(self).tag() == tag_after(old(self).tag(), 1)
                    &&& final(self).left() == old(self).left() - 1
                } else {
                    &&& r == Some(Err::<Endpoints, Error>(Error::Io(e)))
                    &&& final(self).tag() == old(self).tag()
                    &&& final(self).left() == old(self).left()
                },
            },
    {
        match outcome {
            Ok(_) => Some(Endpoints::create(self.runtime.as_str(), self.tag)),
            Err(e) => {
                if matches!(e.kind, IoErrorKind::AlreadyExists) {
                    self.tag = if self.tag == 0xffff {
                        0
                    } else {
                        self.tag + 1
                    };
                    self.left = self.left - 1;
                    None
                } else {
                    Some(Err(Error::Io(e)))
                }
            },
        }
    }
}

/// No directory is tried twice in one search.
pub proof fn law_search_tries_different_directories(
    runtime: Seq<char>,
    first: u16,
    i: nat,
    j: nat,
)
    requires
        i < j < ATTEMPTS,
    ensures
        plugin_dir(runtime, tag_after(first, i)) != plugin_dir(runtime, tag_after(first, j)),
{
    let (a, b) = (tag_after(first, i), tag_after(first, j));
    assert(a != b);
    if plugin_dir(runtime, a) == plugin_dir(runtime, b) {
        lemma_plugin_dir_injective(runtime, a, b);
    }
}

proof fn lemma_plugin_dir_injective(runtime: Seq<char>, a: u16, b: u16)
    requires
        plugin_dir(runtime, a) == plugin_dir(runtime, b),
    ensures
        a == b,
{
    assert(!path::is_absolute(text::four_hex(a)));
    assert(!path::is_absolute(text::four_hex(b)));
    path::lemma_joined_injective(base_dir(runtime), text::four_hex(a), text::four_hex(b));
    text::lemma_four_hex_injective(a, b);
}

proof fn lemma_plugin_dir_stem(runtime: Seq<char>, tag: u16)
    ensures
        control_path(plugin_dir(runtime, tag)) == plugin_dir(runtime, tag) + "/ctl"@,
        events_path(plugin_dir(runtime, tag)) == plugin_dir(runtime, tag) + "/evt"@,
        "/ctl"@.len() == 4,
        "/evt"@.len() == 4,
        "/ctl"@ != "/evt"@,
{
    reveal_strlit("ctl");
    reveal_strlit("evt");
    reveal_strlit("/ctl");
    reveal_strlit("/evt");
    let dir = plugin_dir(runtime, tag);
    let digits = text::four_hex(tag);
    assert(!path::is_absolute(digits));
    assert(dir.last() == digits[3]);
    assert(dir.push('/') + "ctl"@ =~= dir + "/ctl"@);
    assert(dir.push('/') + "evt"@ =~= dir + "/evt"@);
    assert("/ctl"@[1] != "/evt"@[1]);
}

/// Frontends with different directories have separate sockets: the four URLs of
/// two frontends are all different.
pub proof fn law_endpoints_are_separate(
    runtime: Seq<char>,
    tag: u16,
    endpoints: Endpoints,
    other_runtime: Seq<char>,
    other_tag: u16,
    other: Endpoints,
)
    requires
        is_settled(plugin_dir(runtime, tag), Ok(endpoints)),
        is_settled(plugin_dir(other_runtime, other_tag), Ok(other)),
        plugin_dir(runtime, tag) != plugin_dir(other_runtime, other_tag),
    ensures
        endpoints.control@ != endpoints.events@,
        endpoints.control@ != other.control@,
        endpoints.control@ != other.events@,
        endpoints.events@ != other.control@,
        endpoints.events@ != other.events@,
        other.control@ != other.events@,
{
    let dir = plugin_dir(runtime, tag);
    let other_dir = plugin_dir(other_runtime, other_tag);
    lemma_plugin_dir_stem(runtime, tag);
    lemma_plugin_dir_stem(other_runtime, other_tag);
    lemma_parts_differ("ipc://"@, dir, "/ctl"@, dir, "/evt"@);
    lemma_parts_differ("ipc://"@, dir, "/ctl"@, other_dir, "/ctl"@);
    lemma_parts_differ("ipc://"@, dir, "/ctl"@, other_dir, "/evt"@);
    lemma_parts_differ("ipc://"@, dir, "/evt"@, other_dir, "/ctl"@);
    lemma_parts_differ("ipc://"@, dir, "/evt"@, other_dir, "/evt"@);
    lemma_parts_differ("ipc://"@, other_dir, "/ctl"@, other_dir, "/evt"@);
}

/// Frontends that are live at the same time are separate. The file system keeps
/// their directories apart: a directory is created only where none is there yet,
/// and that of a live frontend is `there`. All four URLs are different `ipc://`
/// URLs, and what each frontend removes is its own directory.
pub proof fn law_live_frontends_are_separate(
    there: Set<Seq<char>>,
    runtime: Seq<char>,
    tag: u16,
    live: Endpoints,
    other_runtime: Seq<char>,
    other_tag: u16,
    other: Endpoints,
)
    requires
        is_settled(plugin_dir(runtime, tag), Ok(live)),
        there.contains(plugin_dir(runtime, tag)),
        is_settled(plugin_dir(other_runtime, other_tag), Ok(other)),
        !there.contains(plugin_dir(other_runtime, other_tag)),
    ensures
        seq![live.control@, live.events@, other.control@, other.events@].no_duplicates(),
        "ipc://"@.is_prefix_of(live.control@) && "ipc://"@.is_prefix_of(live.events@),
        "ipc://"@.is_prefix_of(other.control@) && "ipc://"@.is_prefix_of(other.events@),
        live.dir matches Some(dir) && dir@ == plugin_dir(runtime, tag),
        other.dir matches Some(dir) && dir@ == plugin_dir(other_runtime, other_tag),
        live.dir->0@ != other.dir->0@,
{
    law_endpoints_are_separate(runtime, tag, live, other_runtime, other_tag, other);
    law_endpoints_are_private(plugin_dir(runtime, tag), live);
    law_endpoints_are_private(plugin_dir(other_runtime, other_tag), other);
}

proof fn lemma_parts_differ(
    scheme: Seq<char>,
    dir: Seq<char>,
    name: Seq<char>,
    other_dir: Seq<char>,
    other_name: Seq<char>,
)
    requires
        name.len() == other_name.len(),
        dir != other_dir || name != other_name,
    ensures
        scheme + (dir + name) != scheme + (other_dir + other_name),
{
    let a = scheme + (dir + name);
    let b = scheme + (other_dir + other_name);
    if a == b {
        let n = scheme.len() as int;
        let m = a.len() - name.len();
        assert(a.subrange(n, m) =~= dir);
        assert(b.subrange(n, m) =~= other_dir);
        assert(a.skip(m) =~= name);
        assert(b.skip(m) =~= other_name);
    }
}

/// The event socket's path fits the address it is bound to wherever the control
/// socket's does, though only the latter is checked.
pub proof fn law_both_paths_fit(dir: Seq<char>)
    ensures
        byte_len(events_path(dir)) == byte_len(control_path(dir)),
{
    reveal_strlit("ctl");
    reveal_strlit("evt");
    let stem = if dir.len() == 0 || dir.last() == '/' {
        dir
    } else {
        dir.push('/')
    };
    text::lemma_encoding_concatenates(stem, "ctl"@);
    text::lemma_encoding_concatenates(stem, "evt"@);
    utf8::is_ascii_chars_encode_utf8("ctl"@);
    utf8::is_ascii_chars_encode_utf8("evt"@);
}

/// Sockets in a directory are private: both URLs are listened on with the mode
/// that restricts them to the current user.
pub proof fn law_endpoints_are_private(dir: Seq<char>, endpoints: Endpoints)
    requires
        is_settled(dir, Ok(endpoints)),
    ensures
        "ipc://"@.is_prefix_of(endpoints.control@),
        "ipc://"@.is_prefix_of(endpoints.events@),
{
}

/// The URLs of a plugin's sockets are made of the runtime directory, the name of
/// this project, the four digits of the tag and the name of the socket, with one
/// separator between any two.
pub proof fn law_urls_name_their_place(runtime: Seq<char>, tag: u16, endpoints: Endpoints)
    requires
        is_settled(plugin_dir(runtime, tag), Ok(endpoints)),
    ensures
        ({
            let stem = if runtime.len() == 0 || runtime[runtime.len() - 1] == '/' {
                runtime
            } else {
                runtime + seq!['/']
            };
            let dir = stem + "openmso/"@ + text::four_hex(tag);
            &&& base_dir(runtime) == stem + "openmso"@
            &&& endpoints.control@ == "ipc://"@ + (dir + "/ctl"@)
            &&& endpoints.events@ == "ipc://"@ + (dir + "/evt"@)
            &&& endpoints.dir matches Some(own)
            &&& own@ == dir
        }),
{
    reveal_strlit("openmso");
    reveal_strlit("openmso/");
    let digits = text::four_hex(tag);
    let stem = if runtime.len() == 0 || runtime[runtime.len() - 1] == '/' {
        runtime
    } else {
        runtime + seq!['/']
    };
    lemma_plugin_dir_stem(runtime, tag);
    path::law_joined_paths_keep_both_parts(runtime, "openmso"@);
    let base = base_dir(runtime);
    assert(base =~= stem + "openmso"@);
    assert(base[base.len() - 1] == 'o');
    assert(digits[0] != '/');
    path::law_joined_paths_keep_both_parts(base, digits);
    assert("openmso/"@ =~= "openmso"@ + seq!['/']);
    assert(base + seq!['/'] + digits =~= stem + "openmso/"@ + digits);
}

/// Endpoints are had if and only if the path of the control socket fits; if it
/// does not, the refusal gives its length, the limit and the path.
pub proof fn law_only_overlong_paths_are_refused(dir: Seq<char>, r: Result<Endpoints, Error>)
    requires
        is_settled(dir, r),
    ensures
        r is Ok <==> byte_len(control_path(dir)) <= 103,
        r matches Err(e) ==> (e matches Error::Protocol(message) && message@
            == "socket path is "@ + text::decimal(byte_len(control_path(dir)))
            + " bytes, over the "@ + text::decimal(103) + "-byte limit: "@ + control_path(dir)),
{
}

/// The length of a path is that of its characters in UTF-8: one byte to four
/// each.
pub proof fn law_path_length_counts_bytes(path: Seq<char>, c: char)
    ensures
        byte_len(Seq::empty()) == 0,
        byte_len(path.push(c)) == byte_len(path) + (if (c as u32) < 0x80 {
            1int
        } else if (c as u32) < 0x800 {
            2
        } else if (c as u32) < 0x1_0000 {
            3
        } else {
            4
        }),
{
    assert(path.push(c) =~= path + seq![c]);
    text::lemma_encoding_concatenates(path, seq![c]);
    assert(seq![c].drop_first() =~= Seq::empty());
    assert(utf8::encode_utf8(seq![c].drop_first()).len() == 0);
    assert(utf8::encode_utf8(seq![c]) =~= utf8::encode_scalar(c as u32));
}

/// The tags of a search count up by one, and on from the last tag there is to
/// the first.
pub proof fn law_tags_count_up(first: u16, tries: nat)
    ensures
        tag_after(first, 0) == first,
        tag_after(first, tries) < 0xffff ==> tag_after(first, tries + 1) == tag_after(
            first,
            tries,
        ) + 1,
        tag_after(first, tries) == 0xffff ==> tag_after(first, tries + 1) == 0,
{
}

} // verus!
