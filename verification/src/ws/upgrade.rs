//! The server side of the websocket opening handshake: checking the upgrade
//! request, choosing a subprotocol, and the headers of the answer.

use vstd::prelude::*;
use vstd::string::*;
use vstd::utf8::*;

use sha1::Digest;

verus! {

// ---------------------------------------------------------------------------
// Bytes and headers.
// ---------------------------------------------------------------------------

/// The bytes of an ASCII text.
pub open spec fn ascii(s: Seq<char>) -> Seq<u8> {
    s.map_values(|c: char| c as u8)
}

/// The bytes of an ASCII string.
fn ascii_bytes(s: &str) -> (r: &[u8])
    requires
        is_ascii_chars(s@),
    ensures
        r@ == ascii(s@),
{
    let r = s.as_bytes();
    proof {
        is_ascii_spec_bytes(s);
        assert(r@ =~= ascii(s@));
    }
    r
}

/// A header of an HTTP request or answer: its name in lower case, and its
/// value.
#[derive(Clone, Debug)]
pub struct Header {
    pub name: String,
    pub value: Vec<u8>,
}

/// The parts of an upgrade request that the handshake reads: the method, the
/// headers in order, and whether the connection can be taken over.
#[derive(Clone, Debug)]
pub struct RequestParts {
    pub method: String,
    pub headers: Vec<Header>,
    pub upgradable: bool,
}

/// The value of the first header called `name`.
pub open spec fn header_value(hs: Seq<Header>, name: Seq<char>) -> Option<Seq<u8>>
    decreases hs.len(),
{
    if hs.len() == 0 {
        None
    } else if hs[0].name@ == name {
        Some(hs[0].value@)
    } else {
        header_value(hs.drop_first(), name)
    }
}

/// The position of the first header called `name`, if there is one.
fn find_header(hs: &Vec<Header>, name: &str) -> (r: Option<usize>)
    ensures
        match r {
            Some(i) => i < hs@.len() && header_value(hs@, name@) == Some(hs@[i as int].value@),
            None => header_value(hs@, name@) is None,
        },
{
    let key = name.to_owned();
    let n = hs.len();
    let mut i: usize = 0;
    assert(hs@.skip(0) =~= hs@);
    while i < n
        invariant
            n == hs@.len(),
            i <= n,
            key@ == name@,
            header_value(hs@, name@) == header_value(hs@.skip(i as int), name@),
        decreases n - i,
    {
        proof {
            assert(hs@.skip(i as int)[0] == hs@[i as int]);
            assert(hs@.skip(i as int).drop_first() =~= hs@.skip(i + 1));
        }
        if hs[i].name == key {
            return Some(i);
        }
        i = i + 1;
    }
    None
}

/// ASCII upper-case letters made lower case; any other byte kept.
pub open spec fn lower(b: u8) -> u8 {
    if 65 <= b <= 90 {
        (b + 32) as u8
    } else {
        b
    }
}

fn to_lower(b: u8) -> (r: u8)
    ensures
        r == lower(b),
{
    if 65 <= b && b <= 90 {
        b + 32
    } else {
        b
    }
}

/// The byte strings are equal but for the case of ASCII letters.
pub open spec fn eq_ignore_case(a: Seq<u8>, b: Seq<u8>) -> bool {
    a.len() == b.len() && forall|i: int| 0 <= i < a.len() ==> lower(#[trigger] a[i]) == lower(b[i])
}

/// `v` occurs in `h` at position `k` once ASCII letters in `h` are made lower case.
pub open spec fn lowered_at(h: Seq<u8>, v: Seq<u8>, k: int) -> bool {
    &&& 0 <= k
    &&& k + v.len() <= h.len()
    &&& forall|j: int| 0 <= j < v.len() ==> lower(#[trigger] h[k + j]) == v[j]
}

/// `v` occurs in `h` once ASCII letters in `h` are made lower case.
pub open spec fn contains_lowered(h: Seq<u8>, v: Seq<u8>) -> bool {
    exists|k: int| #[trigger] lowered_at(h, v, k)
}

/// The first header called `name` has value `v`, but for the case of ASCII letters.
pub open spec fn header_is(hs: Seq<Header>, name: Seq<char>, v: Seq<u8>) -> bool {
    match header_value(hs, name) {
        Some(h) => eq_ignore_case(h, v),
        None => false,
    }
}

/// The value of the first header called `name` is UTF-8 text that, made
/// lower case, contains `v`.
pub open spec fn header_has(hs: Seq<Header>, name: Seq<char>, v: Seq<u8>) -> bool {
    match header_value(hs, name) {
        Some(h) => valid_utf8(h) && contains_lowered(h, v),
        None => false,
    }
}

/// Whether the bytes are UTF-8 text, by `std::str::from_utf8`: trusted to
/// accept exactly the byte strings that `valid_utf8` describes.
#[verifier::external_body]
fn is_utf8(bytes: &[u8]) -> (r: bool)
    ensures
        r == valid_utf8(bytes@),
{
    std::str::from_utf8(bytes).is_ok()
}

/// Whether the first header called `name` has value `value`, ignoring the
/// case of ASCII letters.
pub fn header_eq(hs: &Vec<Header>, name: &str, value: &[u8]) -> (r: bool)
    ensures
        r == header_is(hs@, name@, value@),
{
    match find_header(hs, name) {
        None => false,
        Some(i) => {
            let h = &hs[i].value;
            assert(header_value(hs@, name@) == Some(h@));
            if h.len() != value.len() {
                return false;
            }
            let n = h.len();
            let mut k: usize = 0;
            while k < n
                invariant
                    n == h@.len(),
                    n == value@.len(),
                    k <= n,
                    header_value(hs@, name@) == Some(h@),
                    forall|j: int| 0 <= j < k ==> lower(#[trigger] h@[j]) == lower(value@[j]),
                decreases n - k,
            {
                if to_lower(h[k]) != to_lower(value[k]) {
                    proof { assert(!eq_ignore_case(h@, value@)); }
                    return false;
                }
                k = k + 1;
            }
            true
        },
    }
}

/// Whether the first header called `name` is UTF-8 text that contains
/// `value` once made lower case.
pub fn header_contains(hs: &Vec<Header>, name: &str, value: &[u8]) -> (r: bool)
    ensures
        r == header_has(hs@, name@, value@),
{
    match find_header(hs, name) {
        None => false,
        Some(i) => {
            let h = &hs[i].value;
            assert(header_value(hs@, name@) == Some(h@));
            if !is_utf8(h.as_slice()) {
                return false;
            }
            let n = h.len();
            let m = value.len();
            if m > n {
                proof {
                    assert forall|s: int| !#[trigger] lowered_at(h@, value@, s) by {}
                }
                return false;
            }
            let mut k: usize = 0;
            while k <= n - m
                invariant
                    n == h@.len(),
                    m == value@.len(),
                    m <= n,
                    header_value(hs@, name@) == Some(h@),
                    valid_utf8(h@),
                    k <= n - m + 1,
                    forall|s: int| 0 <= s < k ==> !#[trigger] lowered_at(h@, value@, s),
                decreases n - m + 1 - k,
            {
                let mut j: usize = 0;
                let mut same = true;
                while j < m
                    invariant
                        n == h@.len(),
                        m == value@.len(),
                        k + m <= n,
                        header_value(hs@, name@) == Some(h@),
                        valid_utf8(h@),
                        j <= m,
                        same == (forall|x: int| 0 <= x < j ==> lower(#[trigger] h@[k + x]) == value@[x]),
                    decreases m - j,
                {
                    if to_lower(h[k + j]) != value[j] {
                        same = false;
                    }
                    j = j + 1;
                }
                if same {
                    proof { assert(lowered_at(h@, value@, k as int)); }
                    return true;
                }
                k = k + 1;
            }
            proof {
                assert forall|s: int| !#[trigger] lowered_at(h@, value@, s) by {
                    if 0 <= s && s + m <= n {
                        assert(s < k);
                    }
                }
            }
            false
        },
    }
}

// ---------------------------------------------------------------------------
// The upgrade request.
// ---------------------------------------------------------------------------

/// Why an upgrade request is refused.
#[derive(Clone, Copy, Debug, PartialEq, Eq, Structural)]
pub enum WebSocketUpgradeRejection {
    MethodNotGet,
    InvalidConnectionHeader,
    InvalidUpgradeHeader,
    InvalidWebSocketVersionHeader,
    WebSocketKeyHeaderMissing,
    ConnectionNotUpgradable,
}

impl WebSocketUpgradeRejection {
    /// The HTTP status of the refusal.
    pub fn status(&self) -> (r: u16)
        ensures
            r == match *self {
                WebSocketUpgradeRejection::MethodNotGet => 405u16,
                WebSocketUpgradeRejection::ConnectionNotUpgradable => 426u16,
                _ => 400u16,
            },
    {
        match self {
            WebSocketUpgradeRejection::MethodNotGet => 405,
            WebSocketUpgradeRejection::ConnectionNotUpgradable => 426,
            _ => 400,
        }
    }

    /// The text of the refusal.
    pub fn body_text(&self) -> (r: String)
        ensures
            r@ == match *self {
                WebSocketUpgradeRejection::MethodNotGet => "Request method must be `GET`"@,
                WebSocketUpgradeRejection::InvalidConnectionHeader => "Connection header did not include 'upgrade'"@,
                WebSocketUpgradeRejection::InvalidUpgradeHeader => "`Upgrade` header did not include 'websocket'"@,
                WebSocketUpgradeRejection::InvalidWebSocketVersionHeader => "`Sec-WebSocket-Version` header did not include '13'"@,
                WebSocketUpgradeRejection::WebSocketKeyHeaderMissing => "`Sec-WebSocket-Key` header missing"@,
                WebSocketUpgradeRejection::ConnectionNotUpgradable => "WebSocket request couldn't be upgraded since no upgrade state was present"@,
            },
    {
        match self {
            WebSocketUpgradeRejection::MethodNotGet => String::from_str("Request method must be `GET`"),
            WebSocketUpgradeRejection::InvalidConnectionHeader => String::from_str("Connection header did not include 'upgrade'"),
            WebSocketUpgradeRejection::InvalidUpgradeHeader => String::from_str("`Upgrade` header did not include 'websocket'"),
            WebSocketUpgradeRejection::InvalidWebSocketVersionHeader => String::from_str("`Sec-WebSocket-Version` header did not include '13'"),
            WebSocketUpgradeRejection::WebSocketKeyHeaderMissing => String::from_str("`Sec-WebSocket-Key` header missing"),
            WebSocketUpgradeRejection::ConnectionNotUpgradable => String::from_str("WebSocket request couldn't be upgraded since no upgrade state was present"),
        }
    }
}

/// Limits and options of a websocket connection.
#[derive(Clone, Copy, Debug, PartialEq, Eq, Structural)]
pub struct WebSocketConfig {
    pub max_send_queue: Option<usize>,
    pub max_message_size: Option<usize>,
    pub max_frame_size: Option<usize>,
    pub accept_unmasked_frames: bool,
}

/// The default options: no send queue limit, messages of up to 64 MiB,
/// frames of up to 16 MiB, masked frames only.
pub open spec fn default_config() -> WebSocketConfig {
    WebSocketConfig {
        max_send_queue: None,
        max_message_size: Some(67108864usize),
        max_frame_size: Some(16777216usize),
        accept_unmasked_frames: false,
    }
}

impl WebSocketConfig {
    /// The default options.
    pub fn new() -> (c: WebSocketConfig)
        ensures
            c == default_config(),
    {
        WebSocketConfig {
            max_send_queue: None,
            max_message_size: Some(64 * 1024 * 1024),
            max_frame_size: Some(16 * 1024 * 1024),
            accept_unmasked_frames: false,
        }
    }
}

/// The bytes of an optional header value.
pub open spec fn opt_bytes(v: Option<Vec<u8>>) -> Option<Seq<u8>> {
    match v {
        Some(b) => Some(b@),
        None => None,
    }
}

/// An accepted upgrade request: the options of the websocket to be, the
/// subprotocol chosen for it, and the request's `Sec-WebSocket-Key` and
/// `Sec-WebSocket-Protocol` header values.
#[derive(Clone, Debug)]
pub struct WebSocketUpgrade {
    pub config: WebSocketConfig,
    pub protocol: Option<Vec<u8>>,
    pub sec_websocket_key: Vec<u8>,
    pub sec_websocket_protocol: Option<Vec<u8>>,
}

/// Why the request with these parts is refused, if it is: the checks come in
/// this order.
pub open spec fn refusal(parts: RequestParts) -> Option<WebSocketUpgradeRejection> {
    let hs = parts.headers@;
    if parts.method@ != "GET"@ {
        Some(WebSocketUpgradeRejection::MethodNotGet)
    } else if !header_has(hs, "connection"@, ascii("upgrade"@)) {
        Some(WebSocketUpgradeRejection::InvalidConnectionHeader)
    } else if !header_is(hs, "upgrade"@, ascii("websocket"@)) {
        Some(WebSocketUpgradeRejection::InvalidUpgradeHeader)
    } else if !header_is(hs, "sec-websocket-version"@, ascii("13"@)) {
        Some(WebSocketUpgradeRejection::InvalidWebSocketVersionHeader)
    } else if header_value(hs, "sec-websocket-key"@) is None {
        Some(WebSocketUpgradeRejection::WebSocketKeyHeaderMissing)
    } else if !parts.upgradable {
        Some(WebSocketUpgradeRejection::ConnectionNotUpgradable)
    } else {
        None
    }
}

fn copy_bytes(v: &Vec<u8>) -> (r: Vec<u8>)
    ensures
        r@ == v@,
{
    let mut r: Vec<u8> = Vec::new();
    let n = v.len();
    let mut i: usize = 0;
    while i < n
        invariant
            n == v@.len(),
            i <= n,
            r@ == v@.take(i as int),
        decreases n - i,
    {
        r.push(v[i]);
        proof { assert(r@ =~= v@.take(i + 1)); }
        i = i + 1;
    }
    assert(v@.take(n as int) =~= v@);
    r
}

impl WebSocketUpgrade {
    /// Checks an upgrade request: a `GET` whose `Connection` header contains
    /// "upgrade", whose `Upgrade` header is "websocket" and whose
    /// `Sec-WebSocket-Version` header is "13" (both ignoring case), with a
    /// `Sec-WebSocket-Key` header, on a connection that can be taken over.
    pub fn from_request_parts(parts: &RequestParts) -> (r: Result<WebSocketUpgrade, WebSocketUpgradeRejection>)
        ensures
            match refusal(*parts) {
                Some(why) => r == Err::<WebSocketUpgrade, WebSocketUpgradeRejection>(why),
                None => r matches Ok(u) && {
                    &&& u.config == default_config()
                    &&& u.protocol is None
                    &&& header_value(parts.headers@, "sec-websocket-key"@) == Some(u.sec_websocket_key@)
                    &&& header_value(parts.headers@, "sec-websocket-protocol"@) == opt_bytes(u.sec_websocket_protocol)
                },
            },
    {
        let hs = &parts.headers;
        let get = String::from_str("GET");
        if parts.method != get {
            return Err(WebSocketUpgradeRejection::MethodNotGet);
        }
        proof {
            reveal_strlit("upgrade");
            reveal_strlit("websocket");
            reveal_strlit("13");
        }
        if !header_contains(hs, "connection", ascii_bytes("upgrade")) {
            return Err(WebSocketUpgradeRejection::InvalidConnectionHeader);
        }
        if !header_eq(hs, "upgrade", ascii_bytes("websocket")) {
            return Err(WebSocketUpgradeRejection::InvalidUpgradeHeader);
        }
        if !header_eq(hs, "sec-websocket-version", ascii_bytes("13")) {
            return Err(WebSocketUpgradeRejection::InvalidWebSocketVersionHeader);
        }
        let key = match find_header(hs, "sec-websocket-key") {
            Some(i) => copy_bytes(&hs[i].value),
            None => {
                return Err(WebSocketUpgradeRejection::WebSocketKeyHeaderMissing);
            },
        };
        if !parts.upgradable {
            return Err(WebSocketUpgradeRejection::ConnectionNotUpgradable);
        }
        let sec_websocket_protocol = match find_header(hs, "sec-websocket-protocol") {
            Some(i) => Some(copy_bytes(&hs[i].value)),
            None => None,
        };
        Ok(WebSocketUpgrade {
            config: WebSocketConfig::new(),
            protocol: None,
            sec_websocket_key: key,
            sec_websocket_protocol,
        })
    }

    /// Sets the size of the internal message send queue.
    pub fn max_send_queue(self, max: usize) -> (r: Self)
        ensures
            r.config == (WebSocketConfig { max_send_queue: Some(max), ..self.config }),
            r.protocol == self.protocol,
            r.sec_websocket_key == self.sec_websocket_key,
            r.sec_websocket_protocol == self.sec_websocket_protocol,
    {
        let mut s = self;
        s.config.max_send_queue = Some(max);
        s
    }

    /// Sets the largest message accepted.
    pub fn max_message_size(self, max: usize) -> (r: Self)
        ensures
            r.config == (WebSocketConfig { max_message_size: Some(max), ..self.config }),
            r.protocol == self.protocol,
            r.sec_websocket_key == self.sec_websocket_key,
            r.sec_websocket_protocol == self.sec_websocket_protocol,
    {
        let mut s = self;
        s.config.max_message_size = Some(max);
        s
    }

    /// Sets the largest frame accepted.
    pub fn max_frame_size(self, max: usize) -> (r: Self)
        ensures
            r.config == (WebSocketConfig { max_frame_size: Some(max), ..self.config }),
            r.protocol == self.protocol,
            r.sec_websocket_key == self.sec_websocket_key,
            r.sec_websocket_protocol == self.sec_websocket_protocol,
    {
        let mut s = self;
        s.config.max_frame_size = Some(max);
        s
    }

    /// Sets whether frames that the client did not mask are accepted.
    pub fn accept_unmasked_frames(self, accept: bool) -> (r: Self)
        ensures
            r.config == (WebSocketConfig { accept_unmasked_frames: accept, ..self.config }),
            r.protocol == self.protocol,
            r.sec_websocket_key == self.sec_websocket_key,
            r.sec_websocket_protocol == self.sec_websocket_protocol,
    {
        let mut s = self;
        s.config.accept_unmasked_frames = accept;
        s
    }
}

// ---------------------------------------------------------------------------
// Choosing a subprotocol.
// ---------------------------------------------------------------------------

/// Whitespace as `str::trim` removes it, among ASCII bytes.
pub open spec fn is_space(b: u8) -> bool {
    b == 9 || b == 10 || b == 11 || b == 12 || b == 13 || b == 32
}

/// `s` without its leading whitespace.
pub open spec fn trim_start(s: Seq<u8>) -> Seq<u8>
    decreases s.len(),
{
    if s.len() > 0 && is_space(s[0]) {
        trim_start(s.drop_first())
    } else {
        s
    }
}

/// `s` without its trailing whitespace.
pub open spec fn trim_end(s: Seq<u8>) -> Seq<u8>
    decreases s.len(),
{
    if s.len() > 0 && is_space(s.last()) {
        trim_end(s.drop_last())
    } else {
        s
    }
}

/// `s` without leading and trailing whitespace.
pub open spec fn trim(s: Seq<u8>) -> Seq<u8> {
    trim_end(trim_start(s))
}

/// Every byte is visible ASCII or a tab: the header values that can be read
/// as text.
pub open spec fn visible_ascii(h: Seq<u8>) -> bool {
    forall|i: int| 0 <= i < h.len() ==> #[trigger] h[i] == 9 || (32 <= h[i] && h[i] < 127)
}

/// `h[s..e]` is one of the comma-separated parts of `h`.
pub open spec fn is_part(h: Seq<u8>, s: int, e: int) -> bool {
    &&& 0 <= s <= e <= h.len()
    &&& s == 0 || h[s - 1] == 44
    &&& e == h.len() || h[e] == 44
    &&& forall|k: int| s <= k < e ==> #[trigger] h[k] != 44
}

/// The comma-separated list `h` offers `p`, with whitespace around list
/// items ignored.
pub open spec fn offered(h: Seq<u8>, p: Seq<u8>) -> bool {
    exists|s: int, e: int| #[trigger] is_part(h, s, e) && trim(h.subrange(s, e)) == p
}

/// The first of `ps` that `h` offers.
pub open spec fn first_offered(h: Seq<u8>, ps: Seq<Seq<u8>>) -> Option<Seq<u8>>
    decreases ps.len(),
{
    if ps.len() == 0 {
        None
    } else if offered(h, ps[0]) {
        Some(ps[0])
    } else {
        first_offered(h, ps.drop_first())
    }
}

/// The bytes of each string.
pub open spec fn utf8_of(ps: Seq<String>) -> Seq<Seq<u8>> {
    ps.map_values(|p: String| encode_utf8(p@))
}

proof fn lemma_trim_start(x: Seq<u8>, a: int)
    requires
        0 <= a <= x.len(),
        forall|i: int| 0 <= i < a ==> is_space(#[trigger] x[i]),
        a == x.len() || !is_space(x[a]),
    ensures
        trim_start(x) == x.subrange(a, x.len() as int),
    decreases a,
{
    if a == 0 {
        assert(x.subrange(0, x.len() as int) =~= x);
    } else {
        let y = x.drop_first();
        assert forall|i: int| 0 <= i < a - 1 implies is_space(#[trigger] y[i]) by {
            assert(y[i] == x[i + 1]);
        }
        if a - 1 < y.len() {
            assert(y[a - 1] == x[a]);
        }
        lemma_trim_start(y, a - 1);
        assert(y.subrange(a - 1, y.len() as int) =~= x.subrange(a, x.len() as int));
    }
}

proof fn lemma_trim_end(x: Seq<u8>, b: int)
    requires
        0 <= b <= x.len(),
        forall|i: int| b <= i < x.len() ==> is_space(#[trigger] x[i]),
        b == 0 || !is_space(x[b - 1]),
    ensures
        trim_end(x) == x.subrange(0, b),
    decreases x.len() - b,
{
    if b == x.len() {
        assert(x.subrange(0, b) =~= x);
    } else {
        let y = x.drop_last();
        assert forall|i: int| b <= i < y.len() implies is_space(#[trigger] y[i]) by {
            assert(y[i] == x[i]);
        }
        if b > 0 {
            assert(y[b - 1] == x[b - 1]);
        }
        lemma_trim_end(y, b);
        assert(y.subrange(0, b) =~= x.subrange(0, b));
    }
}

fn space(b: u8) -> (r: bool)
    ensures
        r == is_space(b),
{
    b == 9 || b == 10 || b == 11 || b == 12 || b == 13 || b == 32
}

/// The bounds of `h[s..e]` without leading and trailing whitespace.
fn trim_bounds(h: &Vec<u8>, s: usize, e: usize) -> (r: (usize, usize))
    requires
        s <= e <= h@.len(),
    ensures
        s <= r.0 <= r.1 <= e,
        h@.subrange(r.0 as int, r.1 as int) == trim(h@.subrange(s as int, e as int)),
{
    let ghost x = h@.subrange(s as int, e as int);
    let mut a = s;
    while a < e && space(h[a])
        invariant
            s <= a <= e,
            e <= h@.len(),
            x == h@.subrange(s as int, e as int),
            forall|i: int| s <= i < a ==> is_space(#[trigger] h@[i]),
        decreases e - a,
    {
        a = a + 1;
    }
    let mut b = e;
    while b > a && space(h[b - 1])
        invariant
            a <= b <= e,
            e <= h@.len(),
            forall|i: int| b <= i < e ==> is_space(#[trigger] h@[i]),
        decreases b - a,
    {
        b = b - 1;
    }
    proof {
        assert forall|i: int| 0 <= i < a - s implies is_space(#[trigger] x[i]) by {
            assert(x[i] == h@[s + i]);
        }
        if a < e {
            assert(x[a - s] == h@[a as int]);
        }
        lemma_trim_start(x, a - s);
        let y = x.subrange(a - s, x.len() as int);
        assert forall|i: int| b - a <= i < y.len() implies is_space(#[trigger] y[i]) by {
            assert(y[i] == h@[a + i]);
        }
        if b > a {
            assert(y[b - a - 1] == h@[b - 1]);
        }
        lemma_trim_end(y, b - a);
        assert(y.subrange(0, b - a) =~= h@.subrange(a as int, b as int));
    }
    (a, b)
}

/// Whether `h[a..b]` is `p`.
fn same_bytes(h: &Vec<u8>, a: usize, b: usize, p: &[u8]) -> (r: bool)
    requires
        a <= b <= h@.len(),
    ensures
        r == (h@.subrange(a as int, b as int) == p@),
{
    if b - a != p.len() {
        return false;
    }
    let mut k: usize = 0;
    while k < p.len()
        invariant
            a <= b <= h@.len(),
            b - a == p@.len(),
            k <= p@.len(),
            forall|j: int| 0 <= j < k ==> #[trigger] h@[a + j] == p@[j],
        decreases p@.len() - k,
    {
        if h[a + k] != p[k] {
            proof { assert(h@.subrange(a as int, b as int)[k as int] != p@[k as int]); }
            return false;
        }
        k = k + 1;
    }
    assert forall|j: int| 0 <= j < p@.len() implies h@.subrange(a as int, b as int)[j] == p@[j] by {
        assert(h@[a + j] == p@[j]);
    }
    assert(h@.subrange(a as int, b as int) =~= p@);
    true
}

/// Whether the comma-separated list `h` offers `p`.
fn offers(h: &Vec<u8>, p: &[u8]) -> (r: bool)
    ensures
        r == offered(h@, p@),
{
    let n = h.len();
    let mut s: usize = 0;
    loop
        invariant
            n == h@.len(),
            s <= n,
            s == 0 || h@[s - 1] == 44,
            forall|s2: int, e2: int| #[trigger] is_part(h@, s2, e2) && s2 < s ==> trim(h@.subrange(s2, e2)) != p@,
        decreases n - s,
    {
        let mut e = s;
        while e < n && h[e] != 44
            invariant
                n == h@.len(),
                s <= e <= n,
                forall|k: int| s <= k < e ==> #[trigger] h@[k] != 44,
            decreases n - e,
        {
            e = e + 1;
        }
        proof {
            assert(is_part(h@, s as int, e as int));
            // any part that starts at `s` ends at `e`
            assert forall|s2: int, e2: int| #[trigger] is_part(h@, s2, e2) && s2 == s implies e2 == e by {
                if e2 < e {
                    assert(h@[e2] != 44);
                } else if e2 > e {
                    assert(h@[e as int] != 44);
                }
            }
        }
        let (a, b) = trim_bounds(h, s, e);
        if same_bytes(h, a, b, p) {
            proof { assert(is_part(h@, s as int, e as int) && trim(h@.subrange(s as int, e as int)) == p@); }
            return true;
        }
        if e == n {
            proof {
                assert forall|s2: int, e2: int| #[trigger] is_part(h@, s2, e2) implies trim(h@.subrange(s2, e2)) != p@ by {
                    if s2 > s {
                        assert(h@[s2 - 1] != 44);
                    }
                }
            }
            return false;
        }
        proof {
            assert forall|s2: int, e2: int| #[trigger] is_part(h@, s2, e2) && s2 < e + 1 implies trim(h@.subrange(s2, e2)) != p@ by {
                if s2 > s {
                    assert(h@[s2 - 1] != 44);
                }
            }
        }
        s = e + 1;
    }
}

/// A copy of the bytes.
fn copy_slice(v: &[u8]) -> (r: Vec<u8>)
    ensures
        r@ == v@,
{
    let mut r: Vec<u8> = Vec::new();
    let n = v.len();
    let mut i: usize = 0;
    while i < n
        invariant
            n == v@.len(),
            i <= n,
            r@ == v@.take(i as int),
        decreases n - i,
    {
        r.push(v[i]);
        proof { assert(r@ =~= v@.take(i + 1)); }
        i = i + 1;
    }
    assert(v@.take(n as int) =~= v@);
    r
}

/// Whether every byte is visible ASCII or a tab.
fn is_visible_ascii(h: &Vec<u8>) -> (r: bool)
    ensures
        r == visible_ascii(h@),
{
    let n = h.len();
    let mut i: usize = 0;
    while i < n
        invariant
            n == h@.len(),
            i <= n,
            forall|k: int| 0 <= k < i ==> #[trigger] h@[k] == 9 || (32 <= h@[k] && h@[k] < 127),
        decreases n - i,
    {
        let b = h[i];
        if !(b == 9 || (32 <= b && b < 127)) {
            return false;
        }
        i = i + 1;
    }
    true
}

/// The first of `protocols` that the list `h` offers.
fn choose_protocol(h: &Vec<u8>, protocols: &Vec<String>) -> (r: Option<Vec<u8>>)
    ensures
        opt_bytes(r) == first_offered(h@, utf8_of(protocols@)),
{
    let ghost ps = utf8_of(protocols@);
    let n = protocols.len();
    let mut i: usize = 0;
    assert(ps.skip(0) =~= ps);
    while i < n
        invariant
            n == protocols@.len(),
            ps == utf8_of(protocols@),
            i <= n,
            first_offered(h@, ps) == first_offered(h@, ps.skip(i as int)),
        decreases n - i,
    {
        let p = protocols[i].as_str().as_bytes();
        proof {
            assert(ps.skip(i as int)[0] == ps[i as int]);
            assert(ps[i as int] == p@);
            assert(ps.skip(i as int).drop_first() =~= ps.skip(i + 1));
        }
        if offers(h, p) {
            return Some(copy_slice(p));
        }
        i = i + 1;
    }
    None
}

impl WebSocketUpgrade {
    /// Chooses the subprotocol: the first of `protocols` (in decreasing
    /// order of preference) that the request's `Sec-WebSocket-Protocol`
    /// header offers, or none. A request without that header, or with one
    /// that is not visible ASCII text, leaves the choice as it was.
    pub fn protocols(self, protocols: Vec<String>) -> (r: Self)
        ensures
            r.config == self.config,
            r.sec_websocket_key == self.sec_websocket_key,
            r.sec_websocket_protocol == self.sec_websocket_protocol,
            match self.sec_websocket_protocol {
                Some(h) => if visible_ascii(h@) {
                    opt_bytes(r.protocol) == first_offered(h@, utf8_of(protocols@))
                } else {
                    r.protocol == self.protocol
                },
                None => r.protocol == self.protocol,
            },
    {
        let mut s = self;
        let chosen = match &s.sec_websocket_protocol {
            Some(h) => if is_visible_ascii(h) {
                Some(choose_protocol(h, &protocols))
            } else {
                None
            },
            None => None,
        };
        match chosen {
            Some(c) => {
                s.protocol = c;
            },
            None => {},
        }
        s
    }
}

// ---------------------------------------------------------------------------
// The answer to an accepted request.
// ---------------------------------------------------------------------------

/// The SHA-1 digest of the bytes.
pub uninterp spec fn sha1(data: Seq<u8>) -> Seq<u8>;

/// The base64 encoding of the bytes, with the standard alphabet and padding.
pub uninterp spec fn base64_standard(data: Seq<u8>) -> Seq<char>;

/// Hashes the bytes with `sha1::Sha1::digest`: trusted to return the digest
/// that `sha1` names.
#[verifier::external_body]
fn sha1_digest(data: &[u8]) -> (r: Vec<u8>)
    ensures
        r@ == sha1(data@),
{
    sha1::Sha1::digest(data).to_vec()
}

/// Encodes the bytes with `base64::encode` (the standard engine, padded):
/// trusted to return the text that `base64_standard` names.
#[verifier::external_body]
#[allow(deprecated)]
fn base64_encode(data: &[u8]) -> (r: String)
    ensures
        r@ == base64_standard(data@),
{
    base64::encode(data)
}

/// The GUID that the websocket protocol appends to the client's key.
pub open spec fn websocket_guid() -> Seq<char> {
    "258EAFA5-E914-47DA-95CA-C5AB0DC85B11"@
}

/// The `Sec-WebSocket-Accept` value for a client key: the base64 encoding
/// of the SHA-1 digest of the key followed by the GUID.
pub open spec fn accept_value(key: Seq<u8>) -> Seq<u8> {
    encode_utf8(base64_standard(sha1(key + ascii(websocket_guid()))))
}

/// The `Sec-WebSocket-Accept` value for the client key `key`.
pub fn sign(key: &[u8]) -> (r: Vec<u8>)
    ensures
        r@ == accept_value(key@),
{
    let mut input = copy_slice(key);
    proof { reveal_strlit("258EAFA5-E914-47DA-95CA-C5AB0DC85B11"); }
    let guid = ascii_bytes("258EAFA5-E914-47DA-95CA-C5AB0DC85B11");
    let mut g = copy_slice(guid);
    input.append(&mut g);
    let digest = sha1_digest(input.as_slice());
    let text = base64_encode(digest.as_slice());
    copy_slice(text.as_str().as_bytes())
}

/// The answer that completes the handshake: its status and headers.
#[derive(Debug)]
pub struct HandshakeResponse {
    pub status: u16,
    pub headers: Vec<Header>,
}

/// The header called `name` with value `value`.
pub open spec fn is_header(h: Header, name: Seq<char>, value: Seq<u8>) -> bool {
    h.name@ == name && h.value@ == value
}

fn header(name: &str, value: Vec<u8>) -> (h: Header)
    ensures
        is_header(h, name@, value@),
{
    Header { name: name.to_owned(), value }
}

impl WebSocketUpgrade {
    /// The answer that switches the connection to the websocket protocol:
    /// `101 Switching Protocols` with `Connection: upgrade`, `Upgrade:
    /// websocket`, the `Sec-WebSocket-Accept` value for the client's key,
    /// and the chosen subprotocol, if any.
    pub fn response(&self) -> (r: HandshakeResponse)
        ensures
            r.status == 101,
            r.headers@.len() == if self.protocol is Some { 4int } else { 3int },
            is_header(r.headers@[0], "connection"@, ascii("upgrade"@)),
            is_header(r.headers@[1], "upgrade"@, ascii("websocket"@)),
            is_header(r.headers@[2], "sec-websocket-accept"@, accept_value(self.sec_websocket_key@)),
            self.protocol matches Some(p) ==> is_header(r.headers@[3], "sec-websocket-protocol"@, p@),
    {
        proof {
            reveal_strlit("upgrade");
            reveal_strlit("websocket");
        }
        let mut headers: Vec<Header> = Vec::new();
        headers.push(header("connection", copy_slice(ascii_bytes("upgrade"))));
        headers.push(header("upgrade", copy_slice(ascii_bytes("websocket"))));
        headers.push(header("sec-websocket-accept", sign(self.sec_websocket_key.as_slice())));
        match &self.protocol {
            Some(p) => {
                headers.push(header("sec-websocket-protocol", copy_slice(p.as_slice())));
            },
            None => {},
        }
        HandshakeResponse { status: 101, headers }
    }
}

/// The chosen subprotocol is offered by the client, and no protocol that the
/// server prefers to it is; when none is chosen, the client offers none of
/// the server's protocols.
pub proof fn law_first_offered(h: Seq<u8>, ps: Seq<Seq<u8>>)
    ensures
        match first_offered(h, ps) {
            Some(p) => exists|i: int| 0 <= i < ps.len() && ps[i] == p && offered(h, p)
                && forall|j: int| 0 <= j < i ==> !offered(h, #[trigger] ps[j]),
            None => forall|i: int| 0 <= i < ps.len() ==> !offered(h, #[trigger] ps[i]),
        },
    decreases ps.len(),
{
    if ps.len() > 0 && !offered(h, ps[0]) {
        let rest = ps.drop_first();
        law_first_offered(h, rest);
        match first_offered(h, rest) {
            Some(p) => {
                let i = choose|i: int| 0 <= i < rest.len() && rest[i] == p && offered(h, p)
                    && forall|j: int| 0 <= j < i ==> !offered(h, #[trigger] rest[j]);
                assert(ps[i + 1] == p);
                assert forall|j: int| 0 <= j < i + 1 implies !offered(h, #[trigger] ps[j]) by {
                    if j > 0 {
                        assert(ps[j] == rest[j - 1]);
                    }
                }
            },
            None => {
                assert forall|i: int| 0 <= i < ps.len() implies !offered(h, #[trigger] ps[i]) by {
                    if i > 0 {
                        assert(ps[i] == rest[i - 1]);
                    }
                }
            },
        }
    } else if ps.len() > 0 {
        assert(ps[0] == ps[0]);
    }
}

/// What to do when taking over the connection fails: by default, nothing.
#[derive(Debug)]
pub struct DefaultOnFailedUpgrade;

} // verus!
