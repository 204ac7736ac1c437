//! Session state of a pool-protocol client, and the grammar of pool URLs.

use crate::errors::{configuration_error, pool_connection_error, ErrorKind, MiningResult};
use crate::types::{MiningJob, PoolConnection};
use vstd::prelude::*;
use vstd::string::*;

verus! {

/// Session of a Stratum client. The transport lies outside: whatever moves the
/// bytes reports what the pool sent through `subscribed` and `notify`.
pub struct StratumClient {
    pool_url: String,
    worker_name: String,
    connection_state: PoolConnection,
    extranonce1: Vec<u8>,
    extranonce2_size: usize,
    pending_job: Option<MiningJob>,
}

impl StratumClient {
    /// The URL of the pool.
    pub closed spec fn pool_url(&self) -> Seq<char> {
        self.pool_url@
    }

    /// The worker name.
    pub closed spec fn worker_name(&self) -> Seq<char> {
        self.worker_name@
    }

    /// The state of the connection.
    pub closed spec fn connection(&self) -> PoolConnection {
        self.connection_state
    }

    /// The newest job that has arrived and was not yet taken.
    pub closed spec fn pending_job(&self) -> Option<MiningJob> {
        self.pending_job
    }

    /// Extra nonce 1 as the pool assigned it.
    pub closed spec fn spec_extranonce1(&self) -> Seq<u8> {
        self.extranonce1@
    }

    /// Size of extra nonce 2 as the pool assigned it.
    pub closed spec fn spec_extranonce2_size(&self) -> usize {
        self.extranonce2_size
    }

    /// Whether the session is connected.
    pub open spec fn connected(&self) -> bool {
        self.connection() is Connected
    }

    /// A disconnected client for the given pool and worker.
    pub fn new(pool_url: &str, worker_name: &str) -> (r: Self)
        ensures
            r.pool_url() == pool_url@,
            r.worker_name() == worker_name@,
            r.connection() is Disconnected,
            r.pending_job() is None,
            r.spec_extranonce1() == Seq::<u8>::empty(),
            r.spec_extranonce2_size() == 4,
    {
        StratumClient {
            pool_url: String::from_str(pool_url),
            worker_name: String::from_str(worker_name),
            connection_state: PoolConnection::Disconnected,
            extranonce1: Vec::new(),
            extranonce2_size: 4,
            pending_job: None,
        }
    }

    /// Marks the session as connected to its pool under its worker name.
    pub fn connect(&mut self) -> (r: MiningResult<()>)
        ensures
            r is Ok,
            final(self).connection() matches PoolConnection::Connected { url, worker } && url@
                == old(self).pool_url() && worker@ == old(self).worker_name(),
            final(self).pool_url() == old(self).pool_url(),
            final(self).worker_name() == old(self).worker_name(),
            final(self).pending_job() == old(self).pending_job(),
            final(self).spec_extranonce1() == old(self).spec_extranonce1(),
            final(self).spec_extranonce2_size() == old(self).spec_extranonce2_size(),
    {
        self.connection_state = PoolConnection::Connected {
            url: self.pool_url.clone(),
            worker: self.worker_name.clone(),
        };
        Ok(())
    }

    /// Marks the session as disconnected.
    pub fn disconnect(&mut self)
        ensures
            final(self).connection() is Disconnected,
            final(self).pool_url() == old(self).pool_url(),
            final(self).worker_name() == old(self).worker_name(),
            final(self).pending_job() == old(self).pending_job(),
            final(self).spec_extranonce1() == old(self).spec_extranonce1(),
            final(self).spec_extranonce2_size() == old(self).spec_extranonce2_size(),
    {
        self.connection_state = PoolConnection::Disconnected;
    }

    /// The state of the connection.
    pub fn state(&self) -> (r: &PoolConnection)
        ensures
            *r == self.connection(),
    {
        &self.connection_state
    }

    /// Whether the session is connected.
    pub fn is_connected(&self) -> (r: bool)
        ensures
            r == self.connected(),
    {
        match self.connection_state {
            PoolConnection::Connected { .. } => true,
            _ => false,
        }
    }

    /// Records the answer of the pool to a subscription.
    pub fn subscribed(&mut self, extranonce1: Vec<u8>, extranonce2_size: usize)
        ensures
            final(self).spec_extranonce1() == extranonce1@,
            final(self).spec_extranonce2_size() == extranonce2_size,
            final(self).connection() == old(self).connection(),
            final(self).pool_url() == old(self).pool_url(),
            final(self).worker_name() == old(self).worker_name(),
            final(self).pending_job() == old(self).pending_job(),
    {
        self.extranonce1 = extranonce1;
        self.extranonce2_size = extranonce2_size;
    }

    /// Records a job that the pool pushed; only the newest is kept.
    pub fn notify(&mut self, job: MiningJob)
        ensures
            final(self).pending_job() == Some(job),
            final(self).connection() == old(self).connection(),
            final(self).pool_url() == old(self).pool_url(),
            final(self).worker_name() == old(self).worker_name(),
            final(self).spec_extranonce1() == old(self).spec_extranonce1(),
            final(self).spec_extranonce2_size() == old(self).spec_extranonce2_size(),
    {
        self.pending_job = Some(job);
    }

    /// Takes the newest job, if one has arrived since the last one was taken.
    /// Fails when the session is not connected.
    pub fn get_job(&mut self) -> (r: MiningResult<Option<MiningJob>>)
        ensures
            old(self).connected() ==> r is Ok && r->Ok_0 == old(self).pending_job(),
            old(self).connected() ==> final(self).pending_job() is None,
            !old(self).connected() ==> r is Err && r->Err_0@ == (
                ErrorKind::PoolConnection,
                "Not connected to pool"@,
            ) && *final(self) == *old(self),
            final(self).connection() == old(self).connection(),
            final(self).pool_url() == old(self).pool_url(),
            final(self).worker_name() == old(self).worker_name(),
            final(self).spec_extranonce1() == old(self).spec_extranonce1(),
            final(self).spec_extranonce2_size() == old(self).spec_extranonce2_size(),
    {
        if !self.is_connected() {
            return Err(pool_connection_error("Not connected to pool"));
        }
        Ok(self.pending_job.take())
    }

    /// Hands a share to the session for submission. Fails when the session is
    /// not connected; a connected session takes every share.
    pub fn submit_share(&self, job_id: &str, extranonce2: &[u8], ntime: u32, nonce: u32) -> (r:
        MiningResult<bool>)
        ensures
            self.connected() ==> r == Ok::<bool, crate::errors::MiningError>(true),
            !self.connected() ==> r is Err && r->Err_0@ == (
                ErrorKind::PoolConnection,
                "Not connected to pool"@,
            ),
    {
        if !self.is_connected() {
            return Err(pool_connection_error("Not connected to pool"));
        }
        Ok(true)
    }

    /// Extra nonce 1 from the pool's subscription answer.
    pub fn extranonce1(&self) -> (r: &[u8])
        ensures
            r@ == self.spec_extranonce1(),
    {
        self.extranonce1.as_slice()
    }

    /// Size of extra nonce 2 in bytes.
    pub fn extranonce2_size(&self) -> (r: usize)
        ensures
            r == self.spec_extranonce2_size(),
    {
        self.extranonce2_size
    }
}

// ---------------------------------------------------------------------------
// Pool URLs
// ---------------------------------------------------------------------------

/// Whether `s` starts with `prefix`.
pub open spec fn has_prefix(s: Seq<char>, prefix: Seq<char>) -> bool {
    prefix.len() <= s.len() && s.subrange(0, prefix.len() as int) == prefix
}

/// What follows the scheme of a pool URL, if it has one of the two schemes.
pub open spec fn after_scheme(url: Seq<char>) -> Option<Seq<char>> {
    if has_prefix(url, "stratum+tcp://"@) {
        Some(url.subrange("stratum+tcp://"@.len() as int, url.len() as int))
    } else if has_prefix(url, "stratum://"@) {
        Some(url.subrange("stratum://"@.len() as int, url.len() as int))
    } else {
        None
    }
}

/// Whether position `c` holds the only colon of `s`.
pub open spec fn is_sole_colon(s: Seq<char>, c: int) -> bool {
    &&& 0 <= c < s.len()
    &&& s[c] == ':'
    &&& forall|j: int| 0 <= j < s.len() && j != c ==> s[j] != ':'
}

/// The position of the only colon of `s`, if it has exactly one.
pub open spec fn sole_colon(s: Seq<char>) -> Option<int> {
    if exists|c: int| is_sole_colon(s, c) {
        Some(choose|c: int| is_sole_colon(s, c))
    } else {
        None
    }
}

/// Whether `c` is an ASCII decimal digit.
pub open spec fn is_digit(c: char) -> bool {
    48 <= c as int <= 57
}

/// The number that a sequence of decimal digits denotes.
pub open spec fn digits_value(s: Seq<char>) -> nat
    decreases s.len(),
{
    if s.len() == 0 {
        0
    } else {
        (digits_value(s.drop_last()) * 10 + (s.last() as int - 48)) as nat
    }
}

/// The digits of a port text: the text without one leading plus sign.
pub open spec fn port_digits(text: Seq<char>) -> Seq<char> {
    if text.len() > 0 && text[0] == '+' {
        text.subrange(1, text.len() as int)
    } else {
        text
    }
}

/// The port that a text denotes: an optional plus sign and at least one
/// decimal digit, with a value from 1 to 65535.
pub open spec fn port_of(text: Seq<char>) -> Option<u16> {
    let digits = port_digits(text);
    if digits.len() >= 1 && (forall|i: int| 0 <= i < digits.len() ==> is_digit(digits[i])) && 1
        <= digits_value(digits) <= 65535 {
        Some(digits_value(digits) as u16)
    } else {
        None
    }
}

/// The outcome of reading a pool URL.
pub enum UrlReading {
    /// Host and port of a well-formed URL.
    Parsed { host: Seq<char>, port: u16 },
    /// The URL has neither scheme.
    BadPrefix,
    /// What follows the scheme does not hold exactly one colon.
    BadFormat,
    /// What follows the colon is no port.
    BadPort,
}

/// Reads a pool URL: one of the schemes `stratum+tcp://` and `stratum://`,
/// then a host, one colon and a port.
pub open spec fn read_url(url: Seq<char>) -> UrlReading {
    match after_scheme(url) {
        None => UrlReading::BadPrefix,
        Some(rest) => match sole_colon(rest) {
            None => UrlReading::BadFormat,
            Some(c) => match port_of(rest.subrange(c + 1, rest.len() as int)) {
                None => UrlReading::BadPort,
                Some(port) => UrlReading::Parsed { host: rest.subrange(0, c), port },
            },
        },
    }
}

fn starts_with(s: &str, prefix: &str) -> (r: bool)
    ensures
        r == has_prefix(s@, prefix@),
{
    let n = prefix.unicode_len();
    if s.unicode_len() < n {
        return false;
    }
    let mut i: usize = 0;
    while i < n
        invariant
            i <= n,
            n == prefix@.len(),
            n <= s@.len(),
            s@.subrange(0, i as int) == prefix@.subrange(0, i as int),
        decreases n - i,
    {
        if s.get_char(i) != prefix.get_char(i) {
            assert(s@.subrange(0, n as int)[i as int] != prefix@[i as int]);
            return false;
        }
        assert(s@.subrange(0, i + 1) =~= s@.subrange(0, i as int).push(s@[i as int]));
        assert(prefix@.subrange(0, i + 1) =~= prefix@.subrange(0, i as int).push(prefix@[i as int]));
        i += 1;
    }
    assert(prefix@.subrange(0, n as int) =~= prefix@);
    true
}

/// Reads a port: an optional plus sign and decimal digits with a value from 1 to 65535.
pub fn parse_port(text: &str) -> (r: Option<u16>)
    ensures
        r == port_of(text@),
{
    let n = text.unicode_len();
    let first: usize = if n > 0 && text.get_char(0) == '+' {
        1
    } else {
        0
    };
    let ghost digits = port_digits(text@);
    assert(digits =~= text@.subrange(first as int, n as int));
    if first == n {
        return None;
    }
    let mut value: u32 = 0;
    let mut i: usize = first;
    assert(digits.subrange(0, 0) =~= Seq::<char>::empty());
    while i < n
        invariant
            first <= i <= n,
            n == text@.len(),
            digits == text@.subrange(first as int, n as int),
            digits == port_digits(text@),
            forall|j: int| 0 <= j < i - first ==> is_digit(digits[j]),
            value <= 65536,
            value == if digits_value(digits.subrange(0, i - first)) > 65536 {
                65536
            } else {
                digits_value(digits.subrange(0, i - first))
            },
        decreases n - i,
    {
        let c: char = text.get_char(i);
        let code: u32 = c as u32;
        if code < 48 || code > 57 {
            assert(!is_digit(digits[i - first]));
            return None;
        }
        let ghost prefix = digits.subrange(0, i - first);
        let ghost longer = digits.subrange(0, i - first + 1);
        assert(longer.drop_last() =~= prefix);
        assert(longer.last() == c);
        let next: u32 = value * 10 + (code - 48);
        value = if next > 65536 {
            65536
        } else {
            next
        };
        i += 1;
    }
    assert(digits.subrange(0, n - first) =~= digits);
    if value >= 1 && value <= 65535 {
        Some(value as u16)
    } else {
        None
    }
}

/// Parses a pool URL into host and port.
///
/// Fails with a configuration error that tells which part is wrong: the
/// scheme, the shape of what follows it, or the port.
pub fn parse_stratum_url(url: &str) -> (r: MiningResult<(String, u16)>)
    ensures
        match read_url(url@) {
            UrlReading::Parsed { host, port } => r is Ok && r->Ok_0.0@ == host && r->Ok_0.1 == port,
            UrlReading::BadPrefix => r is Err && r->Err_0@ == (
                ErrorKind::Configuration,
                "Invalid stratum URL prefix"@,
            ),
            UrlReading::BadFormat => r is Err && r->Err_0@ == (
                ErrorKind::Configuration,
                "Invalid stratum URL format"@,
            ),
            UrlReading::BadPort => r is Err && r->Err_0@ == (
                ErrorKind::Configuration,
                "Invalid port number"@,
            ),
        },
{
    let total = url.unicode_len();
    let skip: usize = if starts_with(url, "stratum+tcp://") {
        "stratum+tcp://".unicode_len()
    } else if starts_with(url, "stratum://") {
        "stratum://".unicode_len()
    } else {
        return Err(configuration_error("Invalid stratum URL prefix"));
    };
    let rest = url.substring_char(skip, total);
    let n = rest.unicode_len();
    assert(after_scheme(url@) == Some(rest@));
    let mut colon: Option<usize> = None;
    let mut i: usize = 0;
    while i < n
        invariant
            i <= n,
            n == rest@.len(),
            after_scheme(url@) == Some(rest@),
            colon matches Some(c) ==> c < i && rest@[c as int] == ':' && forall|j: int|
                0 <= j < i && j != c ==> rest@[j] != ':',
            colon is None ==> forall|j: int| 0 <= j < i ==> rest@[j] != ':',
        decreases n - i,
    {
        if rest.get_char(i) == ':' {
            match colon {
                Some(c) => {
                    assert forall|k: int| !is_sole_colon(rest@, k) by {
                        if is_sole_colon(rest@, k) {
                            if k == c as int {
                                assert(rest@[i as int] != ':');
                            } else {
                                assert(rest@[c as int] != ':');
                            }
                        }
                    }
                    return Err(configuration_error("Invalid stratum URL format"));
                },
                None => {
                    colon = Some(i);
                },
            }
        }
        i += 1;
    }
    match colon {
        None => {
            assert forall|k: int| !is_sole_colon(rest@, k) by {}
            Err(configuration_error("Invalid stratum URL format"))
        },
        Some(c) => {
            assert(is_sole_colon(rest@, c as int));
            assert forall|k: int| is_sole_colon(rest@, k) implies k == c as int by {}
            let host = rest.substring_char(0, c);
            let port_text = rest.substring_char(c + 1, n);
            match parse_port(port_text) {
                None => Err(configuration_error("Invalid port number")),
                Some(port) => Ok((String::from_str(host), port)),
            }
        },
    }
}

} // verus!
