//! The server's settings, its address, the spreading of connections over
//! workers, and the lists of methods a route is registered for.
use vstd::prelude::*;
use crate::table::{get_httpmethod_from_code, method_name, TRACE};

verus! {

/// An IPv4 address and a port.
pub struct EndPoint {
    pub port: u16,
    pub ip_address: [u8; 4],
}

/// Settings shared by every connection.
pub struct ServerConfig {
    pub upload_directory: String,
    /// Milliseconds.
    pub read_timeout: u32,
    /// Bytes per chunk of a chunked or sliced body.
    pub chunk_size: u32,
    /// Milliseconds.
    pub write_timeout: u32,
    pub open_log: bool,
    /// The largest body that is not multipart.
    pub max_body_size: usize,
    /// The largest head.
    pub max_header_size: usize,
    /// How many bytes each read asks for.
    pub read_buff_increase_size: usize,
}

impl ServerConfig {
    /// The settings a server starts with.
    pub fn new() -> (r: Self)
        ensures
            r.upload_directory@ == "./upload"@,
            r.read_timeout == 5000,
            r.chunk_size == 5120,
            r.write_timeout == 5000,
            !r.open_log,
            r.max_body_size == 3 * 1024 * 1024,
            r.max_header_size == 8192,
            r.read_buff_increase_size == 1024,
    {
        ServerConfig {
            upload_directory: String::from_str("./upload"),
            read_timeout: 5000,
            chunk_size: 5120,
            write_timeout: 5000,
            open_log: false,
            max_body_size: 3 * 1024 * 1024,
            max_header_size: 8192,
            read_buff_increase_size: 1024,
        }
    }

    pub fn set_read_timeout(&mut self, millis: u32)
        ensures
            final(self).upload_directory == old(self).upload_directory,
            final(self).max_header_size == old(self).max_header_size,
            final(self).read_buff_increase_size == old(self).read_buff_increase_size,
            final(self).read_timeout == millis,
            final(self).write_timeout == old(self).write_timeout,
            final(self).chunk_size == old(self).chunk_size,
            final(self).max_body_size == old(self).max_body_size,
            final(self).open_log == old(self).open_log,
    {
        self.read_timeout = millis;
    }

    pub fn set_write_timeout(&mut self, millis: u32)
        ensures
            final(self).upload_directory == old(self).upload_directory,
            final(self).max_header_size == old(self).max_header_size,
            final(self).read_buff_increase_size == old(self).read_buff_increase_size,
            final(self).write_timeout == millis,
            final(self).read_timeout == old(self).read_timeout,
            final(self).chunk_size == old(self).chunk_size,
            final(self).max_body_size == old(self).max_body_size,
            final(self).open_log == old(self).open_log,
    {
        self.write_timeout = millis;
    }

    pub fn set_chunksize(&mut self, size: u32)
        ensures
            final(self).upload_directory == old(self).upload_directory,
            final(self).max_header_size == old(self).max_header_size,
            final(self).read_buff_increase_size == old(self).read_buff_increase_size,
            final(self).chunk_size == size,
            final(self).read_timeout == old(self).read_timeout,
            final(self).write_timeout == old(self).write_timeout,
            final(self).max_body_size == old(self).max_body_size,
            final(self).open_log == old(self).open_log,
    {
        self.chunk_size = size;
    }

    pub fn open_server_log(&mut self, open: bool)
        ensures
            final(self).upload_directory == old(self).upload_directory,
            final(self).max_header_size == old(self).max_header_size,
            final(self).read_buff_increase_size == old(self).read_buff_increase_size,
            final(self).open_log == open,
            final(self).read_timeout == old(self).read_timeout,
            final(self).write_timeout == old(self).write_timeout,
            final(self).chunk_size == old(self).chunk_size,
            final(self).max_body_size == old(self).max_body_size,
    {
        self.open_log = open;
    }

    pub fn set_max_body_size(&mut self, size: usize)
        ensures
            final(self).upload_directory == old(self).upload_directory,
            final(self).max_header_size == old(self).max_header_size,
            final(self).read_buff_increase_size == old(self).read_buff_increase_size,
            final(self).max_body_size == size,
            final(self).read_timeout == old(self).read_timeout,
            final(self).write_timeout == old(self).write_timeout,
            final(self).chunk_size == old(self).chunk_size,
            final(self).open_log == old(self).open_log,
    {
        self.max_body_size = size;
    }
}

/// Hands connections to workers in turn.
pub struct RoundRobin {
    pub index: u16,
    pub max: u16,
}

impl RoundRobin {
    pub fn new(max: u16) -> (r: Self)
        ensures
            r.index == 0,
            r.max == max,
    {
        RoundRobin { index: 0, max }
    }

    /// The worker to try next: the current one, starting over past the last;
    /// none where there are no workers.
    pub fn poll(&mut self) -> (r: Option<usize>)
        ensures
            final(self).max == old(self).max,
            old(self).max == 0 ==> r is None,
            old(self).max > 0 ==> r == Some(
                if old(self).index >= old(self).max {
                    0usize
                } else {
                    old(self).index as usize
                },
            ) && final(self).index as usize == r->0,
    {
        if self.max == 0 {
            return None;
        }
        if self.index >= self.max {
            self.index = 0;
        }
        Some(self.index as usize)
    }

    /// The connection went to the worker just polled: move on to the next.
    pub fn sent(&mut self)
        requires
            old(self).index < old(self).max,
        ensures
            final(self).index == old(self).index + 1,
            final(self).max == old(self).max,
    {
        self.index = self.index + 1;
    }
}

/// Whether every code of a list names a method.
pub fn known_codes(codes: &[u8]) -> (r: bool)
    ensures
        r == forall|i: int| 0 <= i < codes@.len() ==> #[trigger] codes@[i] <= TRACE,
{
    let mut i: usize = 0;
    while i < codes.len()
        invariant
            0 <= i <= codes@.len(),
            forall|k: int| 0 <= k < i ==> #[trigger] codes@[k] <= TRACE,
        decreases codes@.len() - i,
    {
        if codes[i] > TRACE {
            return false;
        }
        i = i + 1;
    }
    true
}

/// A method code or a list of them, as given to register a route.
pub trait SerializationMethods {
    spec fn codes(&self) -> Seq<u8>;

    /// Whether every code names a method.
    fn codes_known(&self) -> (r: bool)
        ensures
            r == forall|i: int| 0 <= i < self.codes().len() ==> #[trigger] self.codes()[i] <= TRACE,
    ;

    /// The names of the methods.
    fn serialize(&self) -> (r: Vec<&'static str>)
        requires
            forall|i: int| 0 <= i < self.codes().len() ==> #[trigger] self.codes()[i] <= TRACE,
        ensures
            r@.len() == self.codes().len(),
            forall|i: int| 0 <= i < r@.len() ==> (#[trigger] r@[i])@ == method_name(self.codes()[i]),
    ;
}

impl SerializationMethods for u8 {
    open spec fn codes(&self) -> Seq<u8> {
        seq![*self]
    }

    fn codes_known(&self) -> (r: bool) {
        assert(self.codes()[0] == *self);
        *self <= TRACE
    }

    fn serialize(&self) -> (r: Vec<&'static str>) {
        let mut r: Vec<&'static str> = Vec::new();
        assert(self.codes()[0] <= TRACE);
        r.push(get_httpmethod_from_code(*self));
        r
    }
}

impl<'a> SerializationMethods for &'a [u8] {
    open spec fn codes(&self) -> Seq<u8> {
        (*self)@
    }

    fn codes_known(&self) -> (r: bool) {
        let r = known_codes(*self);
        assert(r == forall|i: int| 0 <= i < self.codes().len() ==> #[trigger] self.codes()[i] <= TRACE)
            by {
            assert(self.codes() == (*self)@);
            if r {
                assert forall|i: int| 0 <= i < self.codes().len() implies #[trigger] self.codes()[i]
                    <= TRACE by {
                    assert(self.codes()[i] == (*self)@[i]);
                }
            } else {
                let k = choose|k: int| 0 <= k < (*self)@.len() && !(#[trigger] (*self)@[k] <= TRACE);
                assert(self.codes()[k] == (*self)@[k]);
            }
        }
        r
    }

    fn serialize(&self) -> (r: Vec<&'static str>) {
        assert forall|i: int| 0 <= i < (*self)@.len() implies #[trigger] (*self)@[i] <= TRACE by {
            assert(self.codes()[i] <= TRACE);
        }
        crate::table::method_names(*self)
    }
}

impl<const I: usize> SerializationMethods for [u8; I] {
    open spec fn codes(&self) -> Seq<u8> {
        self@
    }

    fn codes_known(&self) -> (r: bool) {
        let r = known_codes(self.as_slice());
        assert(r == forall|i: int| 0 <= i < self.codes().len() ==> #[trigger] self.codes()[i] <= TRACE)
            by {
            assert(self.codes() == self@);
            if r {
                assert forall|i: int| 0 <= i < self.codes().len() implies #[trigger] self.codes()[i]
                    <= TRACE by {
                    assert(self.codes()[i] == self@[i]);
                }
            } else {
                let k = choose|k: int| 0 <= k < self@.len() && !(#[trigger] self@[k] <= TRACE);
                assert(self.codes()[k] == self@[k]);
            }
        }
        r
    }

    fn serialize(&self) -> (r: Vec<&'static str>) {
        assert forall|i: int| 0 <= i < self@.len() implies #[trigger] self@[i] <= TRACE by {
            assert(self.codes()[i] <= TRACE);
        }
        crate::table::method_names(self.as_slice())
    }
}

} // verus!
