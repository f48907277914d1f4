//! Client-side support for the Action Message Format (AMF) request/response
//! envelope: a binary, length-prefixed packet that carries named headers and
//! addressed message bodies, each holding an encoded value tree.
//!
//! The heart of the crate is the packet framing layer: [`packet`] holds the
//! model, the builder and the executable codec, [`wire`] the mathematical
//! description of the byte layout with the round-trip and truncation proofs,
//! [`value`] the trusted boundary to the external value codec, and
//! [`errors`] every build, encode and decode failure. Around it sit the
//! game-data model ([`game`]) and the client-session plumbing
//! ([`ClientBuilder`], [`AccountInfo`]).
use vstd::prelude::*;

mod account;
pub mod errors;
pub mod game;
pub mod packet;
pub mod util;
pub mod value;
pub mod wire;

pub use account::AccountInfo;

verus! {

/// A lightweight error carrier used at the client layer: either a borrowed
/// static message or an owned one.
pub enum ErrorKind {
    Static(&'static str),
    Owned(String),
}

impl ErrorKind {
    /// The message carried by this error.
    pub fn as_str(&self) -> (r: &str)
        ensures
            match self {
                ErrorKind::Static(s) => r@ == s@,
                ErrorKind::Owned(s) => r@ == s@,
            },
    {
        match self {
            ErrorKind::Static(s) => s,
            ErrorKind::Owned(s) => s.as_str(),
        }
    }
}

impl From<String> for ErrorKind {
    fn from(s: String) -> (r: Self) {
        ErrorKind::Owned(s)
    }
}

impl vstd::std_specs::convert::FromSpecImpl<String> for ErrorKind {
    open spec fn obeys_from_spec() -> bool {
        true
    }

    open spec fn from_spec(s: String) -> Self {
        ErrorKind::Owned(s)
    }
}

impl From<&'static str> for ErrorKind {
    fn from(s: &'static str) -> (r: Self) {
        ErrorKind::Static(s)
    }
}

impl vstd::std_specs::convert::FromSpecImpl<&'static str> for ErrorKind {
    open spec fn obeys_from_spec() -> bool {
        true
    }

    open spec fn from_spec(s: &'static str) -> Self {
        ErrorKind::Static(s)
    }
}

/// The element-wise view of a run of cookie pairs.
pub open spec fn cookies_seq_view(s: Seq<(String, String)>) -> Seq<(Seq<char>, Seq<char>)> {
    Seq::new(s.len(), |i: int| (s[i].0@, s[i].1@))
}

/// Cookie insertion: replaces the value of the first pair carrying `key`,
/// in place, or appends a fresh pair when no pair carries it.
pub open spec fn spec_cookie_insert(
    cookies: Seq<(Seq<char>, Seq<char>)>,
    key: Seq<char>,
    value: Seq<char>,
) -> Seq<(Seq<char>, Seq<char>)>
    decreases cookies.len(),
{
    if cookies.len() == 0 {
        seq![(key, value)]
    } else if cookies[0].0 == key {
        seq![(key, value)] + cookies.drop_first()
    } else {
        seq![cookies[0]] + spec_cookie_insert(cookies.drop_first(), key, value)
    }
}

/// Folding [`spec_cookie_insert`] over a run of entries, first to last.
pub open spec fn spec_cookie_insert_all(
    cookies: Seq<(Seq<char>, Seq<char>)>,
    entries: Seq<(Seq<char>, Seq<char>)>,
) -> Seq<(Seq<char>, Seq<char>)>
    decreases entries.len(),
{
    if entries.len() == 0 {
        cookies
    } else {
        spec_cookie_insert_all(
            spec_cookie_insert(cookies, entries[0].0, entries[0].1),
            entries.drop_first(),
        )
    }
}

/// The `Cookie` request-header value spelled by a run of cookie pairs:
/// each pair as `key=value;`, in order.
pub open spec fn spec_cookie_header(cookies: Seq<(Seq<char>, Seq<char>)>) -> Seq<char>
    decreases cookies.len(),
{
    if cookies.len() == 0 {
        Seq::empty()
    } else {
        cookies[0].0 + seq!['='] + cookies[0].1 + seq![';'] + spec_cookie_header(
            cookies.drop_first(),
        )
    }
}

/// When the first pair of a cookie run carries the sought key, insertion
/// replaces that pair's value in place.
proof fn lemma_cookie_insert_found(
    cookies: Seq<(Seq<char>, Seq<char>)>,
    key: Seq<char>,
    value: Seq<char>,
    at: int,
)
    requires
        0 <= at < cookies.len(),
        cookies[at].0 == key,
        forall|j: int| 0 <= j < at ==> (#[trigger] cookies[j]).0 != key,
    ensures
        spec_cookie_insert(cookies, key, value) == cookies.update(at, (key, value)),
    decreases cookies.len(),
{
    if at == 0 {
        assert(seq![(key, value)] + cookies.drop_first() =~= cookies.update(0, (key, value)));
    } else {
        assert(forall|j: int|
            0 <= j < cookies.drop_first().len() ==> #[trigger] cookies.drop_first()[j] == cookies[j
                + 1]);
        lemma_cookie_insert_found(cookies.drop_first(), key, value, at - 1);
        assert(seq![cookies[0]] + cookies.drop_first().update(at - 1, (key, value))
            =~= cookies.update(at, (key, value)));
    }
}

/// When no pair of a cookie run carries the sought key, insertion appends a
/// fresh pair.
proof fn lemma_cookie_insert_missing(
    cookies: Seq<(Seq<char>, Seq<char>)>,
    key: Seq<char>,
    value: Seq<char>,
)
    requires
        forall|j: int| 0 <= j < cookies.len() ==> (#[trigger] cookies[j]).0 != key,
    ensures
        spec_cookie_insert(cookies, key, value) == cookies.push((key, value)),
    decreases cookies.len(),
{
    if cookies.len() == 0 {
        assert(seq![(key, value)] =~= cookies.push((key, value)));
    } else {
        assert(forall|j: int|
            0 <= j < cookies.drop_first().len() ==> #[trigger] cookies.drop_first()[j] == cookies[j
                + 1]);
        lemma_cookie_insert_missing(cookies.drop_first(), key, value);
        assert(seq![cookies[0]] + cookies.drop_first().push((key, value)) =~= cookies.push(
            (key, value),
        ));
    }
}

/// Replaces the value of the first pair carrying `key`, or appends the pair.
fn insert_cookie(cookies: &mut Vec<(String, String)>, key: String, value: String)
    ensures
        cookies_seq_view(final(cookies)@) == spec_cookie_insert(
            cookies_seq_view(old(cookies)@),
            key@,
            value@,
        ),
{
    let ghost orig = cookies_seq_view(cookies@);
    let mut i: usize = 0;
    while i < cookies.len()
        invariant
            i <= cookies@.len(),
            orig == cookies_seq_view(cookies@),
            orig == cookies_seq_view(old(cookies)@),
            forall|j: int| 0 <= j < i ==> (#[trigger] orig[j]).0 != key@,
        decreases cookies@.len() - i,
    {
        if crate::util::str_eq(cookies[i].0.as_str(), key.as_str()) {
            proof {
                lemma_cookie_insert_found(orig, key@, value@, i as int);
            }
            cookies.set(i, (key, value));
            proof {
                assert(cookies_seq_view(cookies@) =~= orig.update(i as int, (key@, value@)));
            }
            return ;
        }
        i = i + 1;
    }
    proof {
        lemma_cookie_insert_missing(orig, key@, value@);
    }
    cookies.push((key, value));
    proof {
        assert(cookies_seq_view(cookies@) =~= orig.push((key@, value@)));
    }
}

/// The decimal digit character for `d`.
pub open spec fn spec_digit_char(d: u8) -> char {
    ((0x30 + d) as u8) as char
}

/// The decimal spelling of an 8-bit number, without leading zeroes.
pub open spec fn spec_u8_decimal(n: u8) -> Seq<char> {
    if n < 10 {
        seq![spec_digit_char(n)]
    } else if n < 100 {
        seq![spec_digit_char(n / 10), spec_digit_char(n % 10)]
    } else {
        seq![spec_digit_char(n / 100), spec_digit_char((n / 10) % 10), spec_digit_char(n % 10)]
    }
}

/// The host URL a server number resolves to: the low-numbered servers live
/// under one domain scheme, the rest under another.
pub open spec fn spec_server_host(server_id: u8) -> Seq<char> {
    if server_id < 12 {
        "http://pvz-s"@ + spec_u8_decimal(server_id) + ".youkia.com"@
    } else {
        "http://s"@ + spec_u8_decimal(server_id) + ".youkia.pvz.youkia.com"@
    }
}

/// The one-character text of a decimal digit.
fn digit_str(d: u8) -> (r: &'static str)
    requires
        d < 10,
    ensures
        r@ == seq![spec_digit_char(d)],
{
    let r: &'static str = match d {
        0 => "0",
        1 => "1",
        2 => "2",
        3 => "3",
        4 => "4",
        5 => "5",
        6 => "6",
        7 => "7",
        8 => "8",
        _ => "9",
    };
    proof {
        reveal_strlit("0");
        reveal_strlit("1");
        reveal_strlit("2");
        reveal_strlit("3");
        reveal_strlit("4");
        reveal_strlit("5");
        reveal_strlit("6");
        reveal_strlit("7");
        reveal_strlit("8");
        reveal_strlit("9");
        assert(r@ =~= seq![spec_digit_char(d)]);
    }
    r
}

/// Appends the decimal spelling of `n`.
fn append_decimal(out: &mut String, n: u8)
    ensures
        final(out)@ == old(out)@ + spec_u8_decimal(n),
{
    if n >= 100 {
        out.append(digit_str(n / 100));
        out.append(digit_str((n / 10) % 10));
        out.append(digit_str(n % 10));
        proof {
            assert(out@ =~= old(out)@ + spec_u8_decimal(n));
        }
    } else if n >= 10 {
        out.append(digit_str(n / 10));
        out.append(digit_str(n % 10));
        proof {
            assert(out@ =~= old(out)@ + spec_u8_decimal(n));
        }
    } else {
        out.append(digit_str(n));
        proof {
            assert(out@ =~= old(out)@ + spec_u8_decimal(n));
        }
    }
}

/// Spells the host URL for a server number, exactly as
/// [`spec_server_host`] lays it out. The surrounding program parses this
/// text into its URL type.
pub fn server_host(server_id: u8) -> (r: String)
    ensures
        r@ == spec_server_host(server_id),
{
    let mut out = String::new();
    if server_id < 12 {
        out.append("http://pvz-s");
        append_decimal(&mut out, server_id);
        out.append(".youkia.com");
    } else {
        out.append("http://s");
        append_decimal(&mut out, server_id);
        out.append(".youkia.pvz.youkia.com");
    }
    out
}

/// The accumulated state of a [`ClientBuilder`].
pub ghost struct ClientBuilderView {
    pub server: Option<u8>,
    pub cookies: Seq<(Seq<char>, Seq<char>)>,
}

/// Accumulates what a client needs before it can talk to a server: the
/// server number and the session cookies. The surrounding program turns the
/// finished state into its transport client; [`cookie_header`]
/// (`ClientBuilder::cookie_header`) spells the cookies as the one request
/// header they travel in.
pub struct ClientBuilder {
    server: Option<u8>,
    cookies: Vec<(String, String)>,
}

impl View for ClientBuilder {
    type V = ClientBuilderView;

    closed spec fn view(&self) -> ClientBuilderView {
        ClientBuilderView { server: self.server, cookies: cookies_seq_view(self.cookies@) }
    }
}

impl ClientBuilder {
    /// An empty builder: no server chosen, no cookies.
    pub fn new() -> (r: Self)
        ensures
            r@.server is None,
            r@.cookies == Seq::<(Seq<char>, Seq<char>)>::empty(),
    {
        let r = ClientBuilder { server: None, cookies: Vec::new() };
        proof {
            assert(r@.cookies =~= Seq::<(Seq<char>, Seq<char>)>::empty());
        }
        r
    }

    /// Takes the server and every cookie from a stored account. The stored
    /// server number is reduced to the 8-bit range the builder keeps.
    pub fn account(self, account: AccountInfo) -> (r: Self)
        ensures
            r@.server == Some((account.server % 256) as u8),
            r@.cookies == spec_cookie_insert_all(
                self@.cookies,
                cookies_seq_view(account.cookies@),
            ),
    {
        let server = (account.server % 256) as u8;
        self.server(server).cookies(account.cookies)
    }

    /// Chooses the server, overwriting any prior choice.
    pub fn server(self, server: u8) -> (r: Self)
        ensures
            r@.server == Some(server),
            r@.cookies == self@.cookies,
    {
        ClientBuilder { server: Some(server), ..self }
    }

    /// Sets one cookie: replaces the value of an existing key, or appends
    /// the pair.
    pub fn cookie(self, key: String, value: String) -> (r: Self)
        ensures
            r@.server == self@.server,
            r@.cookies == spec_cookie_insert(self@.cookies, key@, value@),
    {
        let mut cookies = self.cookies;
        insert_cookie(&mut cookies, key, value);
        ClientBuilder { server: self.server, cookies }
    }

    /// Sets every entry in turn, first to last, each as [`cookie`]
    /// (`ClientBuilder::cookie`) would.
    pub fn cookies(self, entries: Vec<(String, String)>) -> (r: Self)
        ensures
            r@.server == self@.server,
            r@.cookies == spec_cookie_insert_all(self@.cookies, cookies_seq_view(entries@)),
    {
        let ghost entry_views = cookies_seq_view(entries@);
        let mut cookies = self.cookies;
        let mut i: usize = 0;
        proof {
            assert(entry_views.skip(0) =~= entry_views);
        }
        while i < entries.len()
            invariant
                i <= entries@.len(),
                entry_views == cookies_seq_view(entries@),
                spec_cookie_insert_all(cookies_seq_view(cookies@), entry_views.skip(i as int))
                    == spec_cookie_insert_all(self@.cookies, entry_views),
            decreases entries@.len() - i,
        {
            let key = entries[i].0.clone();
            let value = entries[i].1.clone();
            proof {
                assert(entry_views.skip(i as int)[0] == (key@, value@));
                assert(entry_views.skip(i as int).drop_first() =~= entry_views.skip(i + 1));
            }
            insert_cookie(&mut cookies, key, value);
            i = i + 1;
        }
        proof {
            assert(entry_views.skip(entry_views.len() as int) =~= Seq::<
                (Seq<char>, Seq<char>),
            >::empty());
        }
        ClientBuilder { server: self.server, cookies }
    }

    /// The chosen server number, if one was chosen.
    pub fn server_number(&self) -> (r: Option<u8>)
        ensures
            r == self@.server,
    {
        self.server
    }

    /// The accumulated cookie pairs, in the order they will travel.
    pub fn cookie_pairs(&self) -> (r: &Vec<(String, String)>)
        ensures
            cookies_seq_view(r@) == self@.cookies,
    {
        &self.cookies
    }

    /// Spells the accumulated cookies as the value of one `Cookie` request
    /// header: each pair as `key=value;`, in order.
    pub fn cookie_header(&self) -> (r: String)
        ensures
            r@ == spec_cookie_header(self@.cookies),
    {
        let ghost cs = self@.cookies;
        let mut out = String::new();
        let mut i: usize = 0;
        proof {
            reveal_strlit("=");
            reveal_strlit(";");
            assert(cs.skip(0) =~= cs);
            assert(out@ + spec_cookie_header(cs.skip(0)) =~= spec_cookie_header(cs));
        }
        while i < self.cookies.len()
            invariant
                i <= self.cookies@.len(),
                cs == cookies_seq_view(self.cookies@),
                out@ + spec_cookie_header(cs.skip(i as int)) == spec_cookie_header(cs),
                "="@ == seq!['='] && ";"@ == seq![';'],
            decreases self.cookies@.len() - i,
        {
            let ghost out_before = out@;
            proof {
                assert(cs.skip(i as int)[0] == cs[i as int]);
                assert(cs.skip(i as int).drop_first() =~= cs.skip(i + 1));
            }
            out.append(self.cookies[i].0.as_str());
            out.append("=");
            out.append(self.cookies[i].1.as_str());
            out.append(";");
            proof {
                assert(out@ + spec_cookie_header(cs.skip(i + 1)) =~= out_before
                    + spec_cookie_header(cs.skip(i as int)));
            }
            i = i + 1;
        }
        proof {
            assert(cs.skip(cs.len() as int) =~= Seq::<(Seq<char>, Seq<char>)>::empty());
            assert(out@ =~= spec_cookie_header(cs));
        }
        out
    }
}

} // verus!
