//! The decisions of the automation web server: which endpoint a request
//! reaches, whether it carries the right token, and the status that an
//! action's outcome is answered with.

use vstd::prelude::*;
use vstd::string::StringSliceAdditionalSpecFns;

verus! {

/// Whether two strings hold the same text.
pub fn str_equal(a: &str, b: &str) -> (r: bool)
    ensures
        r == (a@ == b@),
{
    let x = a.as_bytes();
    let y = b.as_bytes();
    proof {
        vstd::utf8::encode_utf8_decode_utf8(a@);
        vstd::utf8::encode_utf8_decode_utf8(b@);
    }
    if x.len() != y.len() {
        return false;
    }
    let mut i: usize = 0;
    while i < x.len()
        invariant
            x@ == a.spec_bytes(),
            y@ == b.spec_bytes(),
            x@.len() == y@.len(),
            i <= x@.len(),
            forall|k: int| 0 <= k < i ==> x@[k] == y@[k],
        decreases x@.len() - i,
    {
        if x[i] != y[i] {
            return false;
        }
        i = i + 1;
    }
    assert(x@ =~= y@);
    true
}

/// The endpoints of the server.
#[derive(Clone, Copy, Debug, PartialEq, Eq, Structural)]
pub enum Route {
    /// `/garbage.ics`: the garbage pickup calendar.
    GarbageCalendar,
    /// `POST /pc_power`: press the PC's power button.
    PcPower,
    /// `POST /garage_door`: move the garage door.
    GarageDoor,
    /// `POST /auto_garage_door`: the automatic garage door trigger.
    AutoGarageDoor,
    /// Anything else: 404.
    NotFound,
}

/// Whether a request whose `authorization` header holds `header` (`None`
/// when it has none) is authorized by `auth_token`.
pub open spec fn authorized(auth_token: Seq<char>, header: Option<Seq<char>>) -> bool {
    header == Some(auth_token)
}

/// Whether the request's `authorization` header equals the token.
pub fn auth_check(auth_token: &str, header: Option<&str>) -> (r: bool)
    ensures
        r == authorized(auth_token@, match header {
            Some(h) => Some(h@),
            None => None,
        }),
{
    match header {
        Some(v) => str_equal(v, auth_token),
        None => false,
    }
}

/// The endpoint that a request for `url` with `method` reaches: the calendar
/// for any method, the three actions only by `POST` with the right token.
pub open spec fn route_of(url: Seq<char>, method: Seq<char>, authorized: bool) -> Route {
    if url == "/garbage.ics"@ {
        Route::GarbageCalendar
    } else if url == "/pc_power"@ && method == "POST"@ && authorized {
        Route::PcPower
    } else if url == "/garage_door"@ && method == "POST"@ && authorized {
        Route::GarageDoor
    } else if url == "/auto_garage_door"@ && method == "POST"@ && authorized {
        Route::AutoGarageDoor
    } else {
        Route::NotFound
    }
}

/// Routes a request for `url` with `method` whose `authorization` header
/// holds `header`.
pub fn route(url: &str, method: &str, auth_token: &str, header: Option<&str>) -> (r: Route)
    ensures
        r == route_of(url@, method@, authorized(auth_token@, match header {
            Some(h) => Some(h@),
            None => None,
        })),
{
    if str_equal(url, "/garbage.ics") {
        Route::GarbageCalendar
    } else if str_equal(url, "/pc_power") && str_equal(method, "POST") && auth_check(auth_token, header) {
        Route::PcPower
    } else if str_equal(url, "/garage_door") && str_equal(method, "POST") && auth_check(
        auth_token,
        header,
    ) {
        Route::GarageDoor
    } else if str_equal(url, "/auto_garage_door") && str_equal(method, "POST") && auth_check(
        auth_token,
        header,
    ) {
        Route::AutoGarageDoor
    } else {
        Route::NotFound
    }
}

/// The status an action is answered with: 200 when it succeeded, 500 when
/// it failed.
pub fn outcome_status(succeeded: bool) -> (status: u16)
    ensures
        status == (if succeeded {
            200u16
        } else {
            500u16
        }),
{
    if succeeded {
        200
    } else {
        500
    }
}

/// A request without the right token never reaches an action: it gets the
/// calendar or a 404.
pub proof fn lemma_unauthorized_requests_trigger_nothing(url: Seq<char>, method: Seq<char>)
    ensures
        route_of(url, method, false) == Route::GarbageCalendar || route_of(url, method, false)
            == Route::NotFound,
{
}

/// Only `POST` requests reach an action.
pub proof fn lemma_actions_need_post(url: Seq<char>, method: Seq<char>, authorized: bool)
    requires
        method != "POST"@,
    ensures
        route_of(url, method, authorized) == Route::GarbageCalendar || route_of(url, method, authorized)
            == Route::NotFound,
{
}

} // verus!
