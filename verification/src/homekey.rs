//! The bookkeeping of the automatic-login credential provider: which logon
//! scenario it serves, whether Windows is listening to it, the credentials
//! waiting to be submitted, and the layout of the Kerberos logon buffer that
//! submits them.

use vstd::prelude::*;
use vstd::std_specs::iter::IteratorSpec;

verus! {

/// The value that `T::default()` produces.
pub fn default<T: Default>() -> (r: T)
    ensures
        call_ensures(T::default, (), r),
{
    T::default()
}

// ---------------------------------------------------------------------------
// UTF-16 text

/// The UTF-16 code units of one character.
pub open spec fn utf16_units(c: char) -> Seq<u16> {
    let v = c as u32 as int;
    if v < 0x10000 {
        seq![v as u16]
    } else {
        let w = v - 0x10000;
        seq![(0xD800 + w / 0x400) as u16, (0xDC00 + w % 0x400) as u16]
    }
}

/// The UTF-16 encoding of `chars`.
pub open spec fn utf16_of(chars: Seq<char>) -> Seq<u16>
    decreases chars.len(),
{
    if chars.len() == 0 {
        seq![]
    } else {
        utf16_of(chars.drop_last()) + utf16_units(chars.last())
    }
}

/// The text as the UTF-16 code units that Windows' wide-character APIs take
/// (for valid Unicode text, what `OsStr::encode_wide` yields on Windows).
pub fn wide_chars(text: &str) -> (r: Vec<u16>)
    ensures
        r@ == utf16_of(text@),
{
    let mut out: Vec<u16> = Vec::new();
    let ghost chars = text@;
    let mut it = text.chars();
    let ghost mut done: nat = 0;
    proof {
        broadcast use vstd::string::group_string_axioms;
        assert(chars.take(0) =~= seq![]);
    }
    loop
        invariant
            chars == text@,
            done <= chars.len(),
            it.obeys_prophetic_iter_laws(),
            it.remaining() == chars.skip(done as int),
            out@ == utf16_of(chars.take(done as int)),
        ensures
            out@ == utf16_of(text@),
        decreases chars.len() - done,
    {
        let ghost before = it;
        let next = it.next();
        proof {
            broadcast use vstd::string::group_string_axioms;
        }
        match next {
            Some(c) => {
                proof {
                    assert(before.remaining().len() > 0);
                    assert(c == chars[done as int]);
                    assert(chars.take(done as int + 1).drop_last() =~= chars.take(done as int));
                    assert(chars.skip(done as int).drop_first() =~= chars.skip(done as int + 1));
                }
                let v = c as u32;
                if v < 0x10000 {
                    out.push(v as u16);
                } else {
                    let w = v - 0x10000;
                    out.push((0xD800 + w / 0x400) as u16);
                    out.push((0xDC00 + w % 0x400) as u16);
                }
                proof {
                    done = done + 1;
                }
            },
            None => {
                proof {
                    assert(done == chars.len());
                    assert(chars.take(done as int) =~= chars);
                }
                break;
            },
        }
    }
    out
}


/// `text` in UTF-16 followed by a terminating NUL, as the password is
/// handed to Windows.
pub fn wide_chars_nul(text: &str) -> (r: Vec<u16>)
    ensures
        r@ == utf16_of(text@).push(0),
{
    let mut w = wide_chars(text);
    w.push(0);
    w
}

// ---------------------------------------------------------------------------
// The library's reference count

/// The count after one more object handed to Windows: the counter wraps
/// around at `usize::MAX`, as an atomic `fetch_add` does.
pub open spec fn ref_added(count: usize) -> usize {
    if count == usize::MAX {
        0
    } else {
        (count + 1) as usize
    }
}

/// The count after one object is released: the counter wraps around below
/// zero, as an atomic `fetch_sub` does.
pub open spec fn ref_released(count: usize) -> usize {
    if count == 0 {
        usize::MAX
    } else {
        (count - 1) as usize
    }
}

/// Counts one more live object (a provider, or a lock on the class factory)
/// that keeps the library loaded.
pub fn global_ref_add(count: &mut usize)
    ensures
        *final(count) == ref_added(*old(count)),
{
    *count = count.wrapping_add(1);
}

/// Counts one live object fewer.
pub fn global_ref_release(count: &mut usize)
    ensures
        *final(count) == ref_released(*old(count)),
{
    *count = count.wrapping_sub(1);
}

/// `DllCanUnloadNow`: the library may be unloaded once no object is live
/// (`S_OK`); otherwise it must stay (`S_FALSE`).
pub fn dll_can_unload_now(count: usize) -> (unload: bool)
    ensures
        unload == (count == 0),
{
    count == 0
}

/// Releasing an object undoes counting it, and counting one undoes a
/// release, whatever the count was.
pub proof fn lemma_release_undoes_add(count: usize)
    ensures
        ref_released(ref_added(count)) == count,
        ref_added(ref_released(count)) == count,
{
}

// ---------------------------------------------------------------------------
// The credential provider's state

/// `CPUS_INVALID`: no usage scenario set yet.
pub const CPUS_INVALID: i32 = 0;
/// `CPUS_LOGON`: the logon screen.
pub const CPUS_LOGON: i32 = 1;
/// `CPUS_UNLOCK_WORKSTATION`: the lock screen.
pub const CPUS_UNLOCK_WORKSTATION: i32 = 2;

/// `KerbInteractiveLogon`, the logon message for the logon screen.
pub const KERB_INTERACTIVE_LOGON: i32 = 2;
/// `KerbWorkstationUnlockLogon`, the logon message for the lock screen.
pub const KERB_WORKSTATION_UNLOCK_LOGON: i32 = 7;

/// The COM error codes the provider answers with.
#[derive(Clone, Copy, Debug, PartialEq, Eq, Structural)]
pub enum ProviderError {
    /// `E_NOTIMPL`: the provider does not serve this request.
    NotImplemented,
    /// `E_FAIL`: the request cannot be carried out.
    Fail,
}

/// Credentials that arrived over the network, waiting for Windows to ask
/// for them.
#[derive(Clone, Debug)]
pub struct UnlockCredentials {
    pub username: String,
    pub password: String,
}

/// What the provider keeps between Windows' calls: the usage scenario, the
/// listener Windows registered (with its context cookie), and the password
/// waiting to be submitted.
pub struct Main<E> {
    scenario: i32,
    advisee: Option<(E, usize)>,
    unlock: Option<String>,
}

/// Whether the provider serves usage scenario `scenario`.
pub open spec fn supported_scenario(scenario: i32) -> bool {
    scenario == CPUS_LOGON || scenario == CPUS_UNLOCK_WORKSTATION
}

/// The provider serves exactly two usage scenarios, the logon screen
/// (`CPUS_LOGON`, 1) and the lock screen (`CPUS_UNLOCK_WORKSTATION`, 2);
/// every other scenario (`CPUS_INVALID` 0, `CPUS_CHANGE_PASSWORD` 3,
/// `CPUS_CREDUI` 4, `CPUS_PLAP` 5, or any other value) is refused, and each
/// scenario it serves has its own logon message.
pub proof fn lemma_served_scenarios(scenario: i32)
    ensures
        supported_scenario(scenario) <==> (scenario == 1 || scenario == 2),
        logon_message_type(scenario) is Some <==> (scenario == 1 || scenario == 2),
        logon_message_type(1) == Some(2i32),
        logon_message_type(2) == Some(7i32),
{
}

/// The Kerberos logon message for a scenario the provider serves.
pub open spec fn logon_message_type(scenario: i32) -> Option<i32> {
    if scenario == CPUS_UNLOCK_WORKSTATION {
        Some(KERB_WORKSTATION_UNLOCK_LOGON)
    } else if scenario == CPUS_LOGON {
        Some(KERB_INTERACTIVE_LOGON)
    } else {
        None
    }
}

impl<E> Main<E> {
    pub closed spec fn spec_scenario(&self) -> i32 {
        self.scenario
    }

    pub closed spec fn spec_advisee(&self) -> Option<(E, usize)> {
        self.advisee
    }

    pub closed spec fn spec_unlock(&self) -> Option<Seq<char>> {
        match self.unlock {
            Some(p) => Some(p@),
            None => None,
        }
    }

    /// A provider with no scenario, no listener and nothing to submit.
    pub fn new() -> (m: Main<E>)
        ensures
            m.spec_scenario() == CPUS_INVALID,
            m.spec_advisee() is None,
            m.spec_unlock() is None,
    {
        Main { scenario: CPUS_INVALID, advisee: None, unlock: None }
    }

    /// `SetUsageScenario`: the logon and lock screens are served, anything
    /// else is refused with `E_NOTIMPL` and leaves the scenario as it was.
    pub fn set_usage_scenario(&mut self, scenario: i32) -> (r: Result<(), ProviderError>)
        ensures
            final(self).spec_advisee() == old(self).spec_advisee(),
            final(self).spec_unlock() == old(self).spec_unlock(),
            supported_scenario(scenario) ==> r is Ok && final(self).spec_scenario() == scenario,
            !supported_scenario(scenario) ==> r == Err::<(), ProviderError>(ProviderError::NotImplemented)
                && final(self).spec_scenario() == old(self).spec_scenario(),
            r is Ok <==> (scenario == 1 || scenario == 2),
    {
        if scenario == CPUS_LOGON || scenario == CPUS_UNLOCK_WORKSTATION {
            self.scenario = scenario;
            Ok(())
        } else {
            Err(ProviderError::NotImplemented)
        }
    }

    /// `Advise`: Windows listens to credential changes through `advisee`.
    pub fn advise(&mut self, advisee: E, context: usize)
        ensures
            final(self).spec_advisee() == Some((advisee, context)),
            final(self).spec_scenario() == old(self).spec_scenario(),
            final(self).spec_unlock() == old(self).spec_unlock(),
    {
        self.advisee = Some((advisee, context));
    }

    /// `UnAdvise`: Windows stops listening.
    pub fn unadvise(&mut self)
        ensures
            final(self).spec_advisee() is None,
            final(self).spec_scenario() == old(self).spec_scenario(),
            final(self).spec_unlock() == old(self).spec_unlock(),
    {
        self.advisee = None;
    }

    /// The listener Windows registered, if any.
    pub fn advisee(&self) -> (r: Option<&E>)
        ensures
            r is Some <==> self.spec_advisee() is Some,
            r matches Some(e) ==> *e == self.spec_advisee()->Some_0.0,
    {
        match &self.advisee {
            Some((e, _)) => Some(e),
            None => None,
        }
    }

    /// Credentials arrived: when Windows is listening, keep the password for
    /// submission and return the listener's context, with which it is to be
    /// told that the credentials changed. When nobody listens they are
    /// dropped.
    pub fn unlock(&mut self, password: String) -> (notify: Option<usize>)
        ensures
            final(self).spec_advisee() == old(self).spec_advisee(),
            final(self).spec_scenario() == old(self).spec_scenario(),
            match old(self).spec_advisee() {
                Some((_, context)) => notify == Some(context) && final(self).spec_unlock() == Some(
                    password@,
                ),
                None => notify is None && final(self).spec_unlock() == old(self).spec_unlock(),
            },
    {
        match &self.advisee {
            Some((_, context)) => {
                let context = *context;
                self.unlock = Some(password);
                Some(context)
            },
            None => None,
        }
    }

    /// `GetCredentialCount`: (count, default index, auto-logon): one
    /// credential, logged on automatically, while a password waits; none
    /// otherwise.
    pub fn credential_count(&self) -> (r: (u32, u32, bool))
        ensures
            r == (if self.spec_unlock() is Some {
                (1u32, 0u32, true)
            } else {
                (0u32, 0u32, false)
            }),
    {
        if self.unlock.is_some() {
            (1, 0, true)
        } else {
            (0, 0, false)
        }
    }

    /// `SetSelected`: whether the credential should be submitted right away.
    pub fn set_selected(&self) -> (auto_submit: bool)
        ensures
            auto_submit == self.spec_unlock() is Some,
    {
        self.unlock.is_some()
    }

    /// `GetSerialization`: takes the waiting password, if any, together
    /// with the logon message for the current scenario (`E_FAIL` when the
    /// scenario is not one the provider serves). The password is consumed
    /// either way.
    pub fn take_serialization(&mut self) -> (r: Option<(String, Result<i32, ProviderError>)>)
        ensures
            final(self).spec_unlock() is None,
            final(self).spec_scenario() == old(self).spec_scenario(),
            final(self).spec_advisee() == old(self).spec_advisee(),
            r is Some <==> old(self).spec_unlock() is Some,
            r matches Some((password, message)) ==> {
                &&& Some(password@) == old(self).spec_unlock()
                &&& match logon_message_type(old(self).spec_scenario()) {
                    Some(t) => message == Ok::<i32, ProviderError>(t),
                    None => message == Err::<i32, ProviderError>(ProviderError::Fail),
                }
            },
    {
        let taken = self.unlock.take();
        match taken {
            Some(password) => {
                let message = if self.scenario == CPUS_UNLOCK_WORKSTATION {
                    Ok(KERB_WORKSTATION_UNLOCK_LOGON)
                } else if self.scenario == CPUS_LOGON {
                    Ok(KERB_INTERACTIVE_LOGON)
                } else {
                    Err(ProviderError::Fail)
                };
                Some((password, message))
            },
            None => None,
        }
    }
}

// ---------------------------------------------------------------------------
// The KERB_INTERACTIVE_UNLOCK_LOGON buffer

/// Where the strings of a Kerberos logon buffer go: the fixed structure
/// comes first, then the domain, user name and protected password, each
/// a UTF-16 string given by its length in bytes.
#[derive(Clone, Copy, Debug, PartialEq, Eq, Structural)]
pub struct LogonLayout {
    pub offset_domain: usize,
    pub offset_user: usize,
    pub offset_password: usize,
    pub total_size: usize,
    pub domain_length: u16,
    pub user_length: u16,
    pub password_length: u16,
}

/// Lays out a logon buffer whose fixed part takes `header_size` bytes,
/// followed by the three strings of `domain`, `user` and `password` code
/// units. The string lengths are recorded as 16-bit byte counts, cut to 16
/// bits as the structure's fields are.
pub fn logon_layout(header_size: usize, domain: usize, user: usize, password: usize) -> (l: LogonLayout)
    requires
        header_size + 2 * domain + 2 * user + 2 * password <= usize::MAX,
    ensures
        l.offset_domain == header_size,
        l.offset_user == header_size + 2 * domain,
        l.offset_password == header_size + 2 * domain + 2 * user,
        l.total_size == header_size + 2 * domain + 2 * user + 2 * password,
        l.domain_length == (2 * domain) as u16,
        l.user_length == (2 * user) as u16,
        l.password_length == (2 * password) as u16,
{
    let bytes_domain = 2 * domain;
    let bytes_user = 2 * user;
    let bytes_password = 2 * password;
    let offset_domain = header_size;
    let offset_user = offset_domain + bytes_domain;
    let offset_password = offset_user + bytes_user;
    let total_size = offset_password + bytes_password;
    LogonLayout {
        offset_domain,
        offset_user,
        offset_password,
        total_size,
        domain_length: bytes_domain as u16,
        user_length: bytes_user as u16,
        password_length: bytes_password as u16,
    }
}

/// The logon domain that the provider submits.
pub const LOGON_DOMAIN: &'static str = "mfro-desktop";

/// The user name that the provider submits.
pub const LOGON_USER: &'static str = "Max";

/// The bytes of UTF-16 code units in memory on Windows: each unit low byte
/// first.
pub open spec fn le_bytes(units: Seq<u16>) -> Seq<u8>
    decreases units.len(),
{
    if units.len() == 0 {
        seq![]
    } else {
        let u = units.last();
        le_bytes(units.drop_last()) + seq![(u % 256) as u8, (u / 256) as u8]
    }
}

proof fn lemma_le_bytes_len(units: Seq<u16>)
    ensures
        le_bytes(units).len() == 2 * units.len(),
    decreases units.len(),
{
    if units.len() > 0 {
        lemma_le_bytes_len(units.drop_last());
    }
}

/// Appends the bytes of `units` to `buf`.
fn append_le_bytes(buf: &mut Vec<u8>, units: &[u16])
    requires
        old(buf)@.len() + 2 * units@.len() <= usize::MAX,
    ensures
        final(buf)@ == old(buf)@ + le_bytes(units@),
{
    let mut i: usize = 0;
    while i < units.len()
        invariant
            i <= units@.len(),
            buf@ == old(buf)@ + le_bytes(units@.take(i as int)),
        decreases units@.len() - i,
    {
        let u = units[i];
        buf.push((u % 256) as u8);
        buf.push((u / 256) as u8);
        proof {
            assert(units@.take(i + 1).drop_last() =~= units@.take(i as int));
        }
        i = i + 1;
    }
    proof {
        assert(units@.take(i as int) =~= units@);
    }
}

/// The logon buffer handed to Windows: its fixed part `header` (the logon
/// structure, `LogonLayout::offset_domain` bytes), followed by the domain,
/// the user name and the protected password in UTF-16, where the layout
/// of `logon_layout` places them.
pub fn logon_buffer(header: &[u8], domain: &[u16], user: &[u16], password: &[u16]) -> (buf: Vec<u8>)
    requires
        header@.len() + 2 * domain@.len() + 2 * user@.len() + 2 * password@.len() <= usize::MAX,
    ensures
        buf@ == header@ + le_bytes(domain@) + le_bytes(user@) + le_bytes(password@),
        buf@.len() == header@.len() + 2 * domain@.len() + 2 * user@.len() + 2 * password@.len(),
{
    proof {
        lemma_le_bytes_len(domain@);
        lemma_le_bytes_len(user@);
        lemma_le_bytes_len(password@);
    }
    let mut buf: Vec<u8> = Vec::new();
    let mut i: usize = 0;
    while i < header.len()
        invariant
            i <= header@.len(),
            buf@ == header@.take(i as int),
        decreases header@.len() - i,
    {
        buf.push(header[i]);
        proof {
            assert(header@.take(i + 1) =~= header@.take(i as int).push(header@[i as int]));
        }
        i = i + 1;
    }
    proof {
        assert(header@.take(i as int) =~= header@);
    }
    append_le_bytes(&mut buf, domain);
    append_le_bytes(&mut buf, user);
    append_le_bytes(&mut buf, password);
    buf
}

/// The buffer of `logon_buffer` agrees with the layout of `logon_layout`
/// for the same header size and strings: the header fills the bytes before
/// the domain's offset, each string's bytes lie between its offset and the
/// next, the buffer ends at the total size, and each recorded length is the
/// length of its string's bytes (cut to 16 bits).
pub proof fn lemma_logon_buffer_follows_layout(
    l: LogonLayout,
    buf: Seq<u8>,
    header: Seq<u8>,
    domain: Seq<u16>,
    user: Seq<u16>,
    password: Seq<u16>,
)
    requires
        l.offset_domain == header.len(),
        l.offset_user == header.len() + 2 * domain.len(),
        l.offset_password == header.len() + 2 * domain.len() + 2 * user.len(),
        l.total_size == header.len() + 2 * domain.len() + 2 * user.len() + 2 * password.len(),
        l.domain_length == (2 * domain.len()) as u16,
        l.user_length == (2 * user.len()) as u16,
        l.password_length == (2 * password.len()) as u16,
        buf == header + le_bytes(domain) + le_bytes(user) + le_bytes(password),
    ensures
        buf.len() == l.total_size,
        buf.subrange(0, l.offset_domain as int) == header,
        buf.subrange(l.offset_domain as int, l.offset_user as int) == le_bytes(domain),
        buf.subrange(l.offset_user as int, l.offset_password as int) == le_bytes(user),
        buf.subrange(l.offset_password as int, l.total_size as int) == le_bytes(password),
        l.domain_length == le_bytes(domain).len() as u16,
        l.user_length == le_bytes(user).len() as u16,
        l.password_length == le_bytes(password).len() as u16,
{
    lemma_le_bytes_len(domain);
    lemma_le_bytes_len(user);
    lemma_le_bytes_len(password);
    let d = le_bytes(domain);
    let u = le_bytes(user);
    let p = le_bytes(password);
    assert(buf.subrange(0, l.offset_domain as int) =~= header);
    assert(buf.subrange(l.offset_domain as int, l.offset_user as int) =~= d);
    assert(buf.subrange(l.offset_user as int, l.offset_password as int) =~= u);
    assert(buf.subrange(l.offset_password as int, l.total_size as int) =~= p);
}

} // verus!
