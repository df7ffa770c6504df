//! Where a server is reached.
use vstd::prelude::*;

use crate::numeral;
use crate::numeral::decimal_text;
use crate::text;

verus! {

/// `http://host:port`, or `https://host:port`.
pub open spec fn url(secure: bool, host: Seq<char>, port: u16) -> Seq<char> {
    (if secure {
        "https"@
    } else {
        "http"@
    }) + "://"@ + host + ":"@ + numeral::decimal(port as nat)
}

/// `http://host:port`, or `https://host:port`.
pub fn server_url(secure: bool, host: &str, port: u16) -> (r: String)
    ensures
        r@ == url(secure, host@, port),
{
    let mut r = if secure {
        "https".to_owned()
    } else {
        "http".to_owned()
    };
    r.push_str("://");
    r.push_str(host);
    r.push_str(":");
    r.push_str(decimal_text(port as u64).as_str());
    r
}

/// The address names the scheme, the host and the port, in that order.
pub proof fn law_address_names_host_and_port(host: Seq<char>, port: u16)
    ensures
        text::stands_at(url(false, host, port), "http://"@, 0),
        text::stands_at(url(false, host, port), host, 7),
        numeral::numeral(url(false, host, port).skip(8 + host.len() as int)) == Some(port as nat),
        url(false, host, port)[7 + host.len() as int] == ':',
        text::stands_at(url(true, host, port), "https://"@, 0),
        url(true, host, port).skip(8) == url(false, host, port).skip(7),
{
    reveal_strlit("http");
    reveal_strlit("https");
    reveal_strlit("://");
    reveal_strlit(":");
    reveal_strlit("http://");
    reveal_strlit("https://");
    numeral::law_numeral_round_trip(port as nat);
    let a = url(false, host, port);
    let b = url(true, host, port);
    assert(a.subrange(0, 7) =~= "http://"@);
    assert(b.subrange(0, 8) =~= "https://"@);
    assert(a.subrange(7, 7 + host.len() as int) =~= host);
    assert(a.skip(8 + host.len() as int) =~= numeral::decimal(port as nat));
    assert(b.skip(8) =~= a.skip(7));
}

} // verus!
