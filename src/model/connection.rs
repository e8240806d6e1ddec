use vstd::prelude::*;

verus! {

/// Where to connect, and how.
#[derive(Debug, PartialEq, Eq, Clone)]
pub struct Connection {
    pub host: String,
    pub port: u16,
    pub tls: bool,
    pub verify_cert: bool,
}

impl Connection {
    pub fn new(host: &str, port: u16, tls: bool, verify_cert: bool) -> (r: Connection)
        ensures
            r.host@ == host@,
            r.port == port,
            r.tls == tls,
            r.verify_cert == verify_cert,
    {
        Connection { host: String::from_str(host), port, tls, verify_cert }
    }
}

} // verus!
