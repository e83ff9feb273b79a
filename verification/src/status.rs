//! HTTP status codes.

use vstd::prelude::*;

verus! {

pub const OK: u16 = 200;

pub const BAD_REQUEST: u16 = 400;

pub const UNAUTHORIZED: u16 = 401;

pub const FORBIDDEN: u16 = 403;

pub const NOT_FOUND: u16 = 404;

pub const REQUEST_TIMEOUT: u16 = 408;

pub const TOO_MANY_REQUESTS: u16 = 429;

pub const INTERNAL_SERVER_ERROR: u16 = 500;

pub const BAD_GATEWAY: u16 = 502;

pub const SERVICE_UNAVAILABLE: u16 = 503;

pub const GATEWAY_TIMEOUT: u16 = 504;

/// The codes that HTTP allows: those of three digits.
pub open spec fn valid(status: u16) -> bool {
    100 <= status <= 999
}

/// The codes that report success.
pub open spec fn success(status: u16) -> bool {
    200 <= status <= 299
}

/// The codes by which a server owns up to a failure.
pub open spec fn server_error(status: u16) -> bool {
    500 <= status <= 599
}

/// Whether `status` is a code that HTTP allows.
pub fn is_valid(status: u16) -> (r: bool)
    ensures
        r == valid(status),
{
    100 <= status && status <= 999
}

/// Whether `status` reports success.
pub fn is_success(status: u16) -> (r: bool)
    ensures
        r == success(status),
{
    200 <= status && status <= 299
}

/// Whether `status` reports a failure of the server.
pub fn is_server_error(status: u16) -> (r: bool)
    ensures
        r == server_error(status),
{
    500 <= status && status <= 599
}

/// A status is one of three digits; those that report success begin with 2, and those by which a
/// server owns up to a failure with 5.
pub proof fn the_first_digit_tells(status: u16)
    ensures
        valid(status) <==> 1 <= status / 100 <= 9,
        success(status) <==> status / 100 == 2,
        server_error(status) <==> status / 100 == 5,
{
}

/// The statuses that have a name here have the one that HTTP gives them.
pub proof fn statuses_are_named_as_in_http(status: u16)
    ensures
        status == OK <==> status == 200,
        status == BAD_REQUEST <==> status == 400,
        status == UNAUTHORIZED <==> status == 401,
        status == FORBIDDEN <==> status == 403,
        status == NOT_FOUND <==> status == 404,
        status == REQUEST_TIMEOUT <==> status == 408,
        status == TOO_MANY_REQUESTS <==> status == 429,
        status == INTERNAL_SERVER_ERROR <==> status == 500,
        status == BAD_GATEWAY <==> status == 502,
        status == SERVICE_UNAVAILABLE <==> status == 503,
        status == GATEWAY_TIMEOUT <==> status == 504,
{
}

} // verus!
