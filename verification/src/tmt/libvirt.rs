//! The libvirt connection of the fresh-install tests, and how `bcvk` is called
//! with it.

use vstd::prelude::*;

use crate::text::{
    after_prefix, begins_with, concat2, contains, cut_once, decimal, decimal_of, has_part, is_blank,
    is_printable_ascii, lacks, law_split_once, law_trim, no_texts, opt_str, push_text, same,
    split_once, strip_prefix, texts, trim, trimmed,
};

verus! {

/// The only `virsh` that the fresh-install tests accept.
pub const CANONICAL_VIRSH: &'static str = "/usr/bin/virsh";

/// A libvirt connection that was found to be sound.
#[derive(Debug)]
pub struct LibvirtConnection {
    pub uri: String,
    pub socket_path: String,
    pub socket_dev: String,
    pub socket_ino: String,
    pub virsh_path: String,
}

/// What there is to know of the file at the socket's path.
#[derive(Debug, Clone, Copy)]
pub struct SocketFacts {
    pub is_socket: bool,
    pub dev: u64,
    pub ino: u64,
}

/// What there is to know of the file at the path of `virsh`.
#[derive(Debug, Clone, Copy)]
pub struct ProgramFacts {
    pub is_file: bool,
    /// The permission bits.
    pub mode: u32,
}

/// Why a connection is not accepted.
#[derive(Debug)]
pub enum ConnectionError {
    NoQuery,
    NotOnlySocket,
    NoAbsoluteSocket,
    /// There is no file at the named socket path.
    SocketUnreadable(String),
    NotASocket(String),
    /// There is no file at the named path of `virsh`.
    VirshUnreadable(String),
    NotExecutable(String),
    /// The `virsh` that was found is another than the accepted one.
    OtherVirsh(String),
}

impl ConnectionError {
    /// The text of the error.
    pub open spec fn text(self) -> Seq<char> {
        match self {
            ConnectionError::NoQuery => "libvirt URI must contain a socket query parameter"@,
            ConnectionError::NotOnlySocket => {
                "fresh-install libvirt connection must be a qemu+unix URI with only socket=..."@
            },
            ConnectionError::NoAbsoluteSocket => {
                "fresh-install libvirt URI requires an absolute socket= path"@
            },
            ConnectionError::SocketUnreadable(path) => "Reading libvirt socket "@ + path@,
            ConnectionError::NotASocket(path) => "libvirt socket path is not a Unix socket: "@
                + path@,
            ConnectionError::VirshUnreadable(path) => "Reading virsh executable "@ + path@,
            ConnectionError::NotExecutable(path) => "virsh path is not an executable file: "@
                + path@,
            ConnectionError::OtherVirsh(path) => {
                "fresh-install tests require canonical /usr/bin/virsh, found "@ + path@
            },
        }
    }

    /// The text of the error.
    pub fn message(&self) -> (r: String)
        ensures
            r@ == self.text(),
    {
        match self {
            ConnectionError::NoQuery => {
                "libvirt URI must contain a socket query parameter".to_string()
            },
            ConnectionError::NotOnlySocket => {
                "fresh-install libvirt connection must be a qemu+unix URI with only socket=...".to_string()
            },
            ConnectionError::NoAbsoluteSocket => {
                "fresh-install libvirt URI requires an absolute socket= path".to_string()
            },
            ConnectionError::SocketUnreadable(path) => concat2(
                "Reading libvirt socket ",
                path.as_str(),
            ),
            ConnectionError::NotASocket(path) => concat2(
                "libvirt socket path is not a Unix socket: ",
                path.as_str(),
            ),
            ConnectionError::VirshUnreadable(path) => concat2(
                "Reading virsh executable ",
                path.as_str(),
            ),
            ConnectionError::NotExecutable(path) => concat2(
                "virsh path is not an executable file: ",
                path.as_str(),
            ),
            ConnectionError::OtherVirsh(path) => concat2(
                "fresh-install tests require canonical /usr/bin/virsh, found ",
                path.as_str(),
            ),
        }
    }
}

/// What a connection URI comes to.
pub enum UriOutcome {
    NoQuery,
    NotOnlySocket,
    NoAbsoluteSocket,
    Socket(Seq<char>),
}

/// The socket path of a connection URI: `qemu+unix:///session?socket=` and an
/// absolute path, with no other query parameter.
pub open spec fn uri_outcome(uri: Seq<char>) -> UriOutcome {
    match split_once(uri, "?"@) {
        None => UriOutcome::NoQuery,
        Some((base, query)) => if base != "qemu+unix:///session"@ || contains(query, "&"@) {
            UriOutcome::NotOnlySocket
        } else {
            match strip_prefix(query, "socket="@) {
                Some(path) => if "/"@.is_prefix_of(path) {
                    UriOutcome::Socket(path)
                } else {
                    UriOutcome::NoAbsoluteSocket
                },
                None => UriOutcome::NoAbsoluteSocket,
            }
        },
    }
}

/// The socket path of a connection URI.
pub fn libvirt_socket_path(uri: &str) -> (r: Result<String, ConnectionError>)
    ensures
        match uri_outcome(uri@) {
            UriOutcome::NoQuery => r == Err::<String, _>(ConnectionError::NoQuery),
            UriOutcome::NotOnlySocket => r == Err::<String, _>(ConnectionError::NotOnlySocket),
            UriOutcome::NoAbsoluteSocket => r == Err::<String, _>(
                ConnectionError::NoAbsoluteSocket,
            ),
            UriOutcome::Socket(path) => r matches Ok(p) && p@ == path,
        },
{
    match cut_once(uri, "?") {
        None => Err(ConnectionError::NoQuery),
        Some((base, query)) => {
            if !same(base.as_str(), "qemu+unix:///session") || has_part(query.as_str(), "&") {
                return Err(ConnectionError::NotOnlySocket);
            }
            match after_prefix(query.as_str(), "socket=") {
                Some(path) => {
                    if begins_with(path.as_str(), "/") {
                        Ok(path)
                    } else {
                        Err(ConnectionError::NoAbsoluteSocket)
                    }
                },
                None => Err(ConnectionError::NoAbsoluteSocket),
            }
        },
    }
}

/// Whether some execute bit is set.
pub fn is_executable(mode: u32) -> (r: bool)
    ensures
        r == (mode & 0o111 != 0),
{
    mode & 0o111 != 0
}

/// Accepts a connection, by its URI, the file at its socket path and the file at
/// the path of `virsh`; `None` stands for a file that cannot be read.
///
/// The URI is judged first, then the socket, then `virsh`.
pub fn validate_libvirt_connection(
    uri: &str,
    socket: Option<SocketFacts>,
    virsh_path: &str,
    virsh: Option<ProgramFacts>,
) -> (r: Result<LibvirtConnection, ConnectionError>)
    ensures
        match uri_outcome(uri@) {
            UriOutcome::NoQuery => r == Err::<LibvirtConnection, _>(ConnectionError::NoQuery),
            UriOutcome::NotOnlySocket => r == Err::<LibvirtConnection, _>(
                ConnectionError::NotOnlySocket,
            ),
            UriOutcome::NoAbsoluteSocket => r == Err::<LibvirtConnection, _>(
                ConnectionError::NoAbsoluteSocket,
            ),
            UriOutcome::Socket(path) => match socket {
                None => r matches Err(ConnectionError::SocketUnreadable(p)) && p@ == path,
                Some(s) => if !s.is_socket {
                    r matches Err(ConnectionError::NotASocket(p)) && p@ == path
                } else {
                    match virsh {
                        None => r matches Err(ConnectionError::VirshUnreadable(p)) && p@
                            == virsh_path@,
                        Some(v) => if !v.is_file || v.mode & 0o111 == 0 {
                            r matches Err(ConnectionError::NotExecutable(p)) && p@ == virsh_path@
                        } else {
                            r matches Ok(c) && c.uri@ == uri@ && c.socket_path@ == path
                                && c.socket_dev@ == decimal(s.dev as nat) && c.socket_ino@
                                == decimal(s.ino as nat) && c.virsh_path@ == virsh_path@
                        },
                    }
                },
            },
        },
{
    let socket_path = match libvirt_socket_path(uri) {
        Ok(path) => path,
        Err(e) => return Err(e),
    };
    let s = match socket {
        Some(s) => s,
        None => return Err(ConnectionError::SocketUnreadable(socket_path)),
    };
    if !s.is_socket {
        return Err(ConnectionError::NotASocket(socket_path));
    }
    let v = match virsh {
        Some(v) => v,
        None => return Err(ConnectionError::VirshUnreadable(virsh_path.to_string())),
    };
    if !v.is_file || !is_executable(v.mode) {
        return Err(ConnectionError::NotExecutable(virsh_path.to_string()));
    }
    Ok(
        LibvirtConnection {
            uri: uri.to_string(),
            socket_path,
            socket_dev: decimal_of(s.dev),
            socket_ino: decimal_of(s.ino),
            virsh_path: virsh_path.to_string(),
        },
    )
}

/// The path of `virsh`, from the output of `which virsh`: only the canonical one is
/// accepted.
pub fn resolve_virsh(which_output: &str) -> (r: Result<String, ConnectionError>)
    ensures
        match r {
            Ok(path) => trim(which_output@) == CANONICAL_VIRSH@ && path@ == CANONICAL_VIRSH@,
            Err(ConnectionError::OtherVirsh(path)) => trim(which_output@) != CANONICAL_VIRSH@
                && path@ == trim(which_output@),
            Err(_) => false,
        },
{
    let path = trimmed(which_output);
    if same(path.as_str(), CANONICAL_VIRSH) {
        Ok(path)
    } else {
        Err(ConnectionError::OtherVirsh(path))
    }
}

/// `libvirt`, the connection where there is one, and a command.
pub open spec fn libvirt_args(connect_uri: Option<Seq<char>>, command: Seq<char>) -> Seq<
    Seq<char>,
> {
    match connect_uri {
        Some(uri) => seq!["libvirt"@, "--connect"@, uri, command],
        None => seq!["libvirt"@, command],
    }
}

/// The arguments of `bcvk` up to the given command of `libvirt`.
pub fn bcvk_libvirt_args(connect_uri: Option<&str>, command: &str) -> (r: Vec<String>)
    ensures
        texts(r@) == libvirt_args(opt_str(connect_uri), command@),
{
    let mut args = no_texts();
    push_text(&mut args, "libvirt");
    match connect_uri {
        Some(uri) => {
            push_text(&mut args, "--connect");
            push_text(&mut args, uri);
        },
        None => {},
    }
    push_text(&mut args, command);
    assert(texts(args@) =~= libvirt_args(opt_str(connect_uri), command@));
    args
}

/// The arguments of `bcvk` up to `run`.
pub fn bcvk_run_args(connect_uri: Option<&str>) -> (r: Vec<String>)
    ensures
        texts(r@) == libvirt_args(opt_str(connect_uri), "run"@),
{
    bcvk_libvirt_args(connect_uri, "run")
}

/// The URI of an accepted connection ends in its socket path, which is absolute.
pub proof fn law_socket_path_comes_from_the_uri(uri: Seq<char>)
    requires
        uri_outcome(uri) is Socket,
    ensures
        uri == "qemu+unix:///session"@ + "?"@ + "socket="@ + uri_outcome(uri)->Socket_0,
        "/"@.is_prefix_of(uri_outcome(uri)->Socket_0),
        !contains(uri_outcome(uri)->Socket_0, "&"@),
{
    crate::text::lemma_find(uri, "?"@, 0);
    let (base, query) = split_once(uri, "?"@)->0;
    let path = uri_outcome(uri)->Socket_0;
    let i = crate::text::find(uri, "?"@, 0)->0;
    assert(uri.subrange(i, i + "?"@.len()) == "?"@);
    assert(uri =~= base + "?"@ + query);
    assert(query =~= "socket="@ + path);
    assert(uri =~= "qemu+unix:///session"@ + "?"@ + "socket="@ + path);
    if contains(path, "&"@) {
        let j = choose|j: int| crate::text::occurs_at(path, "&"@, j);
        let k = j + "socket="@.len();
        assert(query.subrange(k, k + "&"@.len()) =~= path.subrange(j, j + "&"@.len()));
        assert(crate::text::occurs_at(query, "&"@, k));
    }
}

/// A URI with the socket as its only query parameter, and an absolute path, is accepted, and its
/// socket is that path; without a query, of another kind, with another parameter or with a relative
/// path it is refused.
pub proof fn law_connection_uris(path: Seq<char>, base: Seq<char>, query: Seq<char>)
    requires
        lacks(path, '&'),
        lacks(base, '?'),
    ensures
        uri_outcome("qemu+unix:///session?socket=/"@ + path) == UriOutcome::Socket(
            seq!['/'] + path,
        ),
        path.len() == 0 || path[0] != '/' ==> uri_outcome(
            "qemu+unix:///session?socket="@ + path,
        ) is NoAbsoluteSocket,
        uri_outcome(base) is NoQuery,
        base != "qemu+unix:///session"@ ==> uri_outcome(base.push('?') + query) is NotOnlySocket,
        uri_outcome("qemu+unix:///session?"@ + path.push('&') + query) is NotOnlySocket,
{
    reveal_strlit("?");
    reveal_strlit("&");
    reveal_strlit("/");
    reveal_strlit("socket=");
    reveal_strlit("qemu+unix:///session");
    reveal_strlit("qemu+unix:///session?");
    reveal_strlit("qemu+unix:///session?socket=");
    reveal_strlit("qemu+unix:///session?socket=/");
    let session = "qemu+unix:///session"@;
    assert(lacks(session, '?'));
    let slash = seq!['/'] + path;
    let q1 = "socket="@ + slash;
    lemma_uri_parts(session, q1);
    assert("qemu+unix:///session?socket=/"@ + path =~= session.push('?') + q1);
    assert(lacks(q1, '&')) by {
        assert forall|i: int| 0 <= i < q1.len() implies #[trigger] q1[i] != '&' by {
            if i > 7 {
                assert(q1[i] == path[i - 8]);
            }
        }
    }
    lemma_no_ampersand(q1);
    assert("socket="@ =~= q1.subrange(0, 7));
    assert(q1.skip(7) =~= slash);
    assert("/"@ =~= slash.subrange(0, 1));
    let q2 = "socket="@ + path;
    lemma_uri_parts(session, q2);
    assert("qemu+unix:///session?socket="@ + path =~= session.push('?') + q2);
    assert(lacks(q2, '&')) by {
        assert forall|i: int| 0 <= i < q2.len() implies #[trigger] q2[i] != '&' by {
            if i >= 7 {
                assert(q2[i] == path[i - 7]);
            }
        }
    }
    lemma_no_ampersand(q2);
    assert("socket="@ =~= q2.subrange(0, 7));
    assert(q2.skip(7) =~= path);
    if path.len() > 0 && path[0] != '/' {
        if "/"@.is_prefix_of(path) {
            assert(path.subrange(0, 1)[0] == '/');
        }
    }
    law_split_once(base, "?"@);
    if split_once(base, "?"@) is Some {
        let (a, b) = split_once(base, "?"@)->0;
        assert(base[a.len() as int] == '?') by {
            assert(base == a + "?"@ + b);
        }
    }
    lemma_uri_parts(base, query);
    let q3 = path.push('&') + query;
    lemma_uri_parts(session, q3);
    assert("qemu+unix:///session?"@ + path.push('&') + query =~= session.push('?') + q3);
    assert(q3.subrange(path.len() as int, path.len() as int + 1) =~= "&"@);
    assert(crate::text::occurs_at(q3, "&"@, path.len() as int));
}

/// A URI is parted at its first question mark.
proof fn lemma_uri_parts(base: Seq<char>, query: Seq<char>)
    requires
        lacks(base, '?'),
    ensures
        split_once(base.push('?') + query, "?"@) == Some((base, query)),
{
    reveal_strlit("?");
    let s = base.push('?') + query;
    let mark = "?"@;
    let n = base.len() as int;
    law_split_once(s, mark);
    assert(s =~= (base + mark) + query);
    let (a, b) = split_once(s, mark)->0;
    assert(s[n] == '?');
    assert(s[a.len() as int] == '?') by {
        assert(s == a + mark + b);
    }
    if a.len() < n {
        assert(s[a.len() as int] == base[a.len() as int]);
        assert(false);
    } else if a.len() > n {
        assert(s.skip(n).take(1) =~= mark);
        assert(s.skip(n).len() >= 1);
        assert(false);
    }
    assert(s.take(n) =~= base);
    assert((a + mark + b).take(n) =~= a);
    assert(s.skip(n + 1) =~= query);
    assert((a + mark + b).skip(n + 1) =~= b);
}

/// A text without the character does not hold it.
proof fn lemma_no_ampersand(s: Seq<char>)
    requires
        lacks(s, '&'),
    ensures
        !contains(s, "&"@),
{
    reveal_strlit("&");
    if contains(s, "&"@) {
        let i = choose|i: int| crate::text::occurs_at(s, "&"@, i);
        assert(s.subrange(i, i + 1)[0] == s[i]);
    }
}

/// The connection is named exactly if there is one, before the command.
pub proof fn law_libvirt_arguments(uri: Seq<char>, command: Seq<char>)
    ensures
        libvirt_args(None, command) == seq!["libvirt"@, command],
        libvirt_args(Some(uri), command) == seq!["libvirt"@, "--connect"@, uri, command],
{
}

/// Only `/usr/bin/virsh` is taken for `virsh`, with or without white space around it.
pub proof fn law_only_the_canonical_virsh(
    before: Seq<char>,
    path: Seq<char>,
    after: Seq<char>,
    output: &str,
    r: Result<String, ConnectionError>,
)
    requires
        is_blank(before),
        is_blank(after),
        path.len() > 0,
        is_printable_ascii(path[0]),
        is_printable_ascii(path.last()),
        output@ == before + path + after,
        call_ensures(resolve_virsh, (output,), r),
    ensures
        r is Ok <==> path == "/usr/bin/virsh"@,
        r matches Ok(p) ==> p@ == path,
{
    law_trim(before, path, after);
}

/// What is told of a connection that is refused.
pub proof fn law_connection_messages(path: String)
    ensures
        ConnectionError::NoQuery.text() == "libvirt URI must contain a socket query parameter"@,
        ConnectionError::NotOnlySocket.text() == "fresh-install libvirt connection must be a qemu+unix URI with only socket=..."@,
        ConnectionError::NoAbsoluteSocket.text() == "fresh-install libvirt URI requires an absolute socket= path"@,
        ConnectionError::SocketUnreadable(path).text() == "Reading libvirt socket "@ + path@,
        ConnectionError::NotASocket(path).text() == "libvirt socket path is not a Unix socket: "@ + path@,
        ConnectionError::VirshUnreadable(path).text() == "Reading virsh executable "@ + path@,
        ConnectionError::NotExecutable(path).text() == "virsh path is not an executable file: "@ + path@,
        ConnectionError::OtherVirsh(path).text() == "fresh-install tests require canonical /usr/bin/virsh, found "@ + path@,
{
}

/// A connection is accepted exactly if its URI names a socket that is one, and `virsh` is an executable
/// file; it is then kept as it was found, with the device and inode of the socket in decimal.
pub proof fn law_accepted_connections(
    uri: &str,
    socket: Option<SocketFacts>,
    virsh_path: &str,
    virsh: Option<ProgramFacts>,
    r: Result<LibvirtConnection, ConnectionError>,
)
    requires
        call_ensures(validate_libvirt_connection, (uri, socket, virsh_path, virsh), r),
    ensures
        r is Ok <==> {
            &&& uri_outcome(uri@) is Socket
            &&& socket is Some && socket->0.is_socket
            &&& virsh is Some && virsh->0.is_file && virsh->0.mode & 0o111 != 0
        },
        r matches Ok(c) ==> {
            &&& c.uri@ == uri@
            &&& c.socket_path@ == uri_outcome(uri@)->Socket_0
            &&& c.socket_dev@ == decimal(socket->0.dev as nat)
            &&& c.socket_ino@ == decimal(socket->0.ino as nat)
            &&& c.virsh_path@ == virsh_path@
        },
{
}

} // verus!
