//! Configuration surface: the per-location settings and their inheritance.
//!
//! Every field maps 1:1 to a directive. Settings are valid in `http`, `server` and
//! `location`; a value set at one level is inherited below it and can be
//! overridden there. That is how `pow_gate on;` at server level and
//! `pow_gate off;` in a `location` cooperate.

use crate::server::challenge::{page_bytes, render_page};
use crate::server::runtime::{
    is_blank, is_resolved, key_usable, or_default, Cfg, MIN_HMAC_KEY_LEN,
};
use vstd::prelude::*;

verus! {

/// A flag that is not set at this level.
pub const UNSET_FLAG: isize = -1;

/// A time that is not set at this level.
pub const UNSET_SEC: i64 = -1;

/// A number that is not set at this level.
pub const UNSET_UINT: usize = usize::MAX;

/// A size that is not set at this level.
pub const UNSET_SIZE: usize = usize::MAX;

/// Settings of one location. Flags, numbers and times hold an `UNSET_*` value and
/// texts are empty where nothing was set at this level.
pub struct LocationConf {
    /// `pow_gate on|off`
    pub enabled: isize,
    /// `pow_gate_trusted $var`: handle of the value to evaluate
    pub trusted: Option<usize>,
    /// `pow_gate_decision $var`: handle of the value to evaluate
    pub decision: Option<usize>,
    /// `pow_gate_page <file>`
    pub page_path: String,
    /// rendered page (loaded once at merge)
    pub page_cache: Vec<u8>,
    /// `pow_gate_nojs_page <file>`
    pub nojs_page_path: String,
    /// no-JS template (loaded once at merge; its placeholders are per-request)
    pub nojs_page_cache: Vec<u8>,
    /// `pow_gate_difficulty N`
    pub difficulty: usize,
    /// `pow_gate_hmac_key_file <file>`
    pub hmac_key_file: String,
    /// `pow_gate_clearance_ttl <time>`
    pub clearance_ttl: i64,
    /// `pow_gate_proof_skew <time>`
    pub proof_skew: i64,
    /// `pow_gate_require_proof on|off`
    pub require_proof: isize,
    /// `pow_gate_endpoint <prefix>`
    pub endpoint: String,
    /// `pow_gate_replay on|off`
    pub replay: isize,
    /// `pow_gate_replay_max_body <size>`
    pub replay_max_body: usize,
    /// `pow_gate_cookie_name <name>`
    pub cookie_name: String,
    /// `pow_gate_cookie_domain <domain>`
    pub cookie_domain: String,
    /// `pow_gate_cookie_path <path>`
    pub cookie_path: String,
    /// `pow_gate_cookie_samesite Lax|Strict|None`
    pub cookie_samesite: String,
    /// `pow_gate_cookie_secure on|off`
    pub cookie_secure: isize,
    /// `pow_gate_cookie_httponly on|off`
    pub cookie_httponly: isize,
}

// ------------------------------------------------------------- inheritance

/// What holds at a level: the value set here, else the one from above, else the
/// default.
pub open spec fn inherited<T>(here: T, above: T, default: T, unset: T) -> T {
    if here != unset {
        here
    } else if above != unset {
        above
    } else {
        default
    }
}

/// As [`inherited`], for a text, which is unset where it is empty.
pub open spec fn inherited_text(
    here: Seq<char>,
    above: Seq<char>,
    default: Seq<char>,
) -> Seq<char> {
    or_default(here, or_default(above, default))
}

/// As [`inherited`], for a handle, which has no default.
pub open spec fn inherited_handle(here: Option<usize>, above: Option<usize>) -> Option<usize> {
    match here {
        Some(h) => Some(h),
        None => above,
    }
}

pub fn merge_flag(conf: &mut isize, prev: isize, default: isize)
    ensures
        *final(conf) == inherited(*old(conf), prev, default, UNSET_FLAG),
{
    if *conf == UNSET_FLAG {
        *conf = if prev == UNSET_FLAG {
            default
        } else {
            prev
        };
    }
}

pub fn merge_uint(conf: &mut usize, prev: usize, default: usize)
    ensures
        *final(conf) == inherited(*old(conf), prev, default, UNSET_UINT),
{
    if *conf == UNSET_UINT {
        *conf = if prev == UNSET_UINT {
            default
        } else {
            prev
        };
    }
}

pub fn merge_size(conf: &mut usize, prev: usize, default: usize)
    ensures
        *final(conf) == inherited(*old(conf), prev, default, UNSET_SIZE),
{
    if *conf == UNSET_SIZE {
        *conf = if prev == UNSET_SIZE {
            default
        } else {
            prev
        };
    }
}

pub fn merge_sec(conf: &mut i64, prev: i64, default: i64)
    ensures
        *final(conf) == inherited(*old(conf), prev, default, UNSET_SEC),
{
    if *conf == UNSET_SEC {
        *conf = if prev == UNSET_SEC {
            default
        } else {
            prev
        };
    }
}

pub fn merge_ptr(conf: &mut Option<usize>, prev: Option<usize>)
    ensures
        *final(conf) == inherited_handle(*old(conf), prev),
{
    if conf.is_none() {
        *conf = prev;
    }
}

pub fn merge_str(conf: &mut String, prev: &str, default: &str)
    ensures
        final(conf)@ == inherited_text(old(conf)@, prev@, default@),
{
    if is_blank(conf.as_str()) {
        if !is_blank(prev) {
            *conf = prev.to_owned();
        } else {
            *conf = default.to_owned();
        }
    }
}

/// A setting in which nothing is set.
pub open spec fn nothing_set(c: LocationConf) -> bool {
    &&& c.enabled == UNSET_FLAG
    &&& c.trusted is None
    &&& c.decision is None
    &&& c.page_path@.len() == 0
    &&& c.page_cache@.len() == 0
    &&& c.nojs_page_path@.len() == 0
    &&& c.nojs_page_cache@.len() == 0
    &&& c.difficulty == UNSET_UINT
    &&& c.hmac_key_file@.len() == 0
    &&& c.clearance_ttl == UNSET_SEC
    &&& c.proof_skew == UNSET_SEC
    &&& c.require_proof == UNSET_FLAG
    &&& c.endpoint@.len() == 0
    &&& c.replay == UNSET_FLAG
    &&& c.replay_max_body == UNSET_SIZE
    &&& c.cookie_name@.len() == 0
    &&& c.cookie_domain@.len() == 0
    &&& c.cookie_path@.len() == 0
    &&& c.cookie_samesite@.len() == 0
    &&& c.cookie_secure == UNSET_FLAG
    &&& c.cookie_httponly == UNSET_FLAG
}

/// A fresh location: numeric, time and flag fields are marked "unset" so that
/// merging can tell "set here" from "inherit".
pub fn create_location_conf() -> (c: LocationConf)
    ensures
        nothing_set(c),
{
    LocationConf {
        enabled: UNSET_FLAG,
        trusted: None,
        decision: None,
        page_path: String::new(),
        page_cache: Vec::new(),
        nojs_page_path: String::new(),
        nojs_page_cache: Vec::new(),
        difficulty: UNSET_UINT,
        hmac_key_file: String::new(),
        clearance_ttl: UNSET_SEC,
        proof_skew: UNSET_SEC,
        require_proof: UNSET_FLAG,
        endpoint: String::new(),
        replay: UNSET_FLAG,
        replay_max_body: UNSET_SIZE,
        cookie_name: String::new(),
        cookie_domain: String::new(),
        cookie_path: String::new(),
        cookie_samesite: String::new(),
        cookie_secure: UNSET_FLAG,
        cookie_httponly: UNSET_FLAG,
    }
}

/// `out` is what holds at a level where `here` was set, below `above`. The last
/// argument of each line is the default of the directive.
pub open spec fn is_merged(out: LocationConf, here: LocationConf, above: LocationConf) -> bool {
    &&& out.enabled == inherited(here.enabled, above.enabled, 0, UNSET_FLAG)
    &&& out.trusted == inherited_handle(here.trusted, above.trusted)
    &&& out.decision == inherited_handle(here.decision, above.decision)
    &&& out.page_path@ == inherited_text(here.page_path@, above.page_path@, ""@)
    &&& out.page_cache@ == here.page_cache@
    &&& out.nojs_page_path@ == inherited_text(here.nojs_page_path@, above.nojs_page_path@, ""@)
    &&& out.nojs_page_cache@ == here.nojs_page_cache@
    &&& out.difficulty == inherited(here.difficulty, above.difficulty, 50000, UNSET_UINT)
    &&& out.hmac_key_file@ == inherited_text(here.hmac_key_file@, above.hmac_key_file@, ""@)
    &&& out.clearance_ttl == inherited(here.clearance_ttl, above.clearance_ttl, 43200, UNSET_SEC)
    &&& out.proof_skew == inherited(here.proof_skew, above.proof_skew, 5, UNSET_SEC)
    &&& out.require_proof == inherited(here.require_proof, above.require_proof, 0, UNSET_FLAG)
    &&& out.endpoint@ == inherited_text(here.endpoint@, above.endpoint@, "/.pow/"@)
    &&& out.replay == inherited(here.replay, above.replay, 1, UNSET_FLAG)
    &&& out.replay_max_body == inherited(
        here.replay_max_body,
        above.replay_max_body,
        1048576,
        UNSET_SIZE,
    )
    &&& out.cookie_name@ == inherited_text(
        here.cookie_name@,
        above.cookie_name@,
        "pow_clearance"@,
    )
    &&& out.cookie_domain@ == inherited_text(here.cookie_domain@, above.cookie_domain@, ""@)
    &&& out.cookie_path@ == inherited_text(here.cookie_path@, above.cookie_path@, "/"@)
    &&& out.cookie_samesite@ == inherited_text(here.cookie_samesite@, above.cookie_samesite@, "Lax"@)
    &&& out.cookie_secure == inherited(here.cookie_secure, above.cookie_secure, 1, UNSET_FLAG)
    &&& out.cookie_httponly == inherited(here.cookie_httponly, above.cookie_httponly, 1, UNSET_FLAG)
}

/// Standard inheritance: set-here beats inherited; the final argument is the root
/// default. This is what lets an operator set any knob at `http` and override it
/// per server or per location, and what makes `pow_gate off;` win locally.
pub fn merge_location_conf(prev: &LocationConf, conf: &mut LocationConf)
    ensures
        is_merged(*final(conf), *old(conf), *prev),
{
    merge_flag(&mut conf.enabled, prev.enabled, 0);
    merge_ptr(&mut conf.trusted, prev.trusted);
    merge_ptr(&mut conf.decision, prev.decision);
    merge_str(&mut conf.page_path, prev.page_path.as_str(), "");
    merge_str(&mut conf.nojs_page_path, prev.nojs_page_path.as_str(), "");

    merge_uint(&mut conf.difficulty, prev.difficulty, 50000);
    merge_str(&mut conf.hmac_key_file, prev.hmac_key_file.as_str(), "");
    merge_sec(&mut conf.clearance_ttl, prev.clearance_ttl, 43200);
    merge_sec(&mut conf.proof_skew, prev.proof_skew, 5);
    merge_flag(&mut conf.require_proof, prev.require_proof, 0);
    merge_str(&mut conf.endpoint, prev.endpoint.as_str(), "/.pow/");
    merge_flag(&mut conf.replay, prev.replay, 1);
    // Default tracks nginx's own client_max_body_size default (1m): a body the
    // server would accept is a body worth keeping across a challenge.
    merge_size(&mut conf.replay_max_body, prev.replay_max_body, 1048576);

    merge_str(&mut conf.cookie_name, prev.cookie_name.as_str(), "pow_clearance");
    merge_str(&mut conf.cookie_domain, prev.cookie_domain.as_str(), "");
    merge_str(&mut conf.cookie_path, prev.cookie_path.as_str(), "/");
    merge_str(&mut conf.cookie_samesite, prev.cookie_samesite.as_str(), "Lax");
    merge_flag(&mut conf.cookie_secure, prev.cookie_secure, 1);
    merge_flag(&mut conf.cookie_httponly, prev.cookie_httponly, 1);
}

// ---------------------------------------------------------------- start-up

/// Why a configuration is refused at start-up.
#[derive(Debug, Clone, Copy, PartialEq, Eq, Structural)]
pub enum ConfError {
    /// `pow_gate on` without a readable key file of at least
    /// [`MIN_HMAC_KEY_LEN`] bytes.
    Key,
    /// `pow_gate_page` cannot be read.
    Page,
    /// `pow_gate_nojs_page` cannot be read.
    NoJsPage,
}

/// A key that was read and is long enough.
pub open spec fn usable(key: Option<Vec<u8>>) -> bool {
    key matches Some(k) && k@.len() >= MIN_HMAC_KEY_LEN
}

/// Check and load what a merged location needs, from the bytes of its key file,
/// its page and its no-JS template; `None` where a file cannot be read.
///
/// Where the module is on, the HMAC key is mandatory and must be usable. It is
/// checked here so that a misconfigured server refuses to start instead of
/// silently running with an empty or weak key. An unreadable page is an error as
/// well. The page is rendered with this location's difficulty and endpoint; the
/// no-JS template is kept as it is. What an error keeps from being loaded stays as
/// it was.
pub fn load_location_conf(
    conf: &mut LocationConf,
    key: Option<Vec<u8>>,
    page: Option<Vec<u8>>,
    nojs_page: Option<Vec<u8>>,
) -> (r: Result<(), ConfError>)
    ensures
        old(conf).enabled == 0 ==> r is Ok && *final(conf) == *old(conf),
        old(conf).enabled != 0 ==> r == (if !usable(key) {
            Err(ConfError::Key)
        } else if page is None {
            Err(ConfError::Page)
        } else if nojs_page is None {
            Err(ConfError::NoJsPage)
        } else {
            Ok(())
        }),
        r == Err::<(), ConfError>(ConfError::Key) || r == Err::<(), ConfError>(ConfError::Page)
            ==> *final(conf) == *old(conf),
        old(conf).enabled != 0 && (r is Ok || r == Err::<(), ConfError>(ConfError::NoJsPage))
            ==> final(conf).page_cache@ == page_bytes(
            page->0@,
            old(conf).difficulty as u64,
            old(conf).endpoint@,
        ),
        r == Err::<(), ConfError>(ConfError::NoJsPage) ==> final(conf).nojs_page_cache == old(
            conf,
        ).nojs_page_cache,
        r is Ok && old(conf).enabled != 0 ==> final(conf).nojs_page_cache@ == nojs_page->0@,
        *final(conf) == (LocationConf {
            page_cache: final(conf).page_cache,
            nojs_page_cache: final(conf).nojs_page_cache,
            ..*old(conf)
        }),
{
    if conf.enabled != 0 {
        let usable_key = match &key {
            Some(bytes) => key_usable(bytes.as_slice()),
            None => false,
        };
        if !usable_key {
            return Err(ConfError::Key);
        }
        match page {
            Some(raw) => {
                conf.page_cache =
                render_page(raw.as_slice(), conf.difficulty as u64, conf.endpoint.as_str());
            },
            None => return Err(ConfError::Page),
        }
        match nojs_page {
            Some(raw) => {
                conf.nojs_page_cache = raw;
            },
            None => return Err(ConfError::NoJsPage),
        }
    }
    Ok(())
}

// -------------------------------------------------------------------- laws

/// What is set at a level holds there, whatever is set above it.
pub proof fn set_here_wins(out: LocationConf, here: LocationConf, above: LocationConf)
    requires
        is_merged(out, here, above),
    ensures
        here.enabled != UNSET_FLAG ==> out.enabled == here.enabled,
        here.trusted is Some ==> out.trusted == here.trusted,
        here.decision is Some ==> out.decision == here.decision,
        here.difficulty != UNSET_UINT ==> out.difficulty == here.difficulty,
        here.hmac_key_file@.len() > 0 ==> out.hmac_key_file@ == here.hmac_key_file@,
        here.clearance_ttl != UNSET_SEC ==> out.clearance_ttl == here.clearance_ttl,
        here.proof_skew != UNSET_SEC ==> out.proof_skew == here.proof_skew,
        here.require_proof != UNSET_FLAG ==> out.require_proof == here.require_proof,
        here.endpoint@.len() > 0 ==> out.endpoint@ == here.endpoint@,
        here.replay != UNSET_FLAG ==> out.replay == here.replay,
        here.replay_max_body != UNSET_SIZE ==> out.replay_max_body == here.replay_max_body,
        here.page_path@.len() > 0 ==> out.page_path@ == here.page_path@,
        here.nojs_page_path@.len() > 0 ==> out.nojs_page_path@ == here.nojs_page_path@,
        here.cookie_name@.len() > 0 ==> out.cookie_name@ == here.cookie_name@,
        here.cookie_domain@.len() > 0 ==> out.cookie_domain@ == here.cookie_domain@,
        here.cookie_path@.len() > 0 ==> out.cookie_path@ == here.cookie_path@,
        here.cookie_samesite@.len() > 0 ==> out.cookie_samesite@ == here.cookie_samesite@,
        here.cookie_secure != UNSET_FLAG ==> out.cookie_secure == here.cookie_secure,
        here.cookie_httponly != UNSET_FLAG ==> out.cookie_httponly == here.cookie_httponly,
{
}

/// A level at which nothing is set takes over a merged level above it unchanged.
pub proof fn nothing_set_inherits_everything(
    out: LocationConf,
    here: LocationConf,
    above: LocationConf,
    above_here: LocationConf,
    root: LocationConf,
)
    requires
        nothing_set(here),
        is_merged(above, above_here, root),
        is_merged(out, here, above),
    ensures
        out.enabled == above.enabled,
        out.trusted == above.trusted,
        out.decision == above.decision,
        out.difficulty == above.difficulty,
        out.hmac_key_file@ == above.hmac_key_file@,
        out.clearance_ttl == above.clearance_ttl,
        out.proof_skew == above.proof_skew,
        out.require_proof == above.require_proof,
        out.endpoint@ == above.endpoint@,
        out.replay == above.replay,
        out.replay_max_body == above.replay_max_body,
        out.page_path@ == above.page_path@,
        out.nojs_page_path@ == above.nojs_page_path@,
        out.cookie_name@ == above.cookie_name@,
        out.cookie_domain@ == above.cookie_domain@,
        out.cookie_path@ == above.cookie_path@,
        out.cookie_samesite@ == above.cookie_samesite@,
        out.cookie_secure == above.cookie_secure,
        out.cookie_httponly == above.cookie_httponly,
{
    reveal_strlit("");
    assert(above.page_path@.len() == 0 ==> above.page_path@ =~= ""@);
    assert(above.nojs_page_path@.len() == 0 ==> above.nojs_page_path@ =~= ""@);
    assert(above.hmac_key_file@.len() == 0 ==> above.hmac_key_file@ =~= ""@);
    assert(above.cookie_domain@.len() == 0 ==> above.cookie_domain@ =~= ""@);
    reveal_strlit("/.pow/");
    reveal_strlit("pow_clearance");
    reveal_strlit("/");
    reveal_strlit("Lax");
    assert("/.pow/"@.len() == 6);
    assert("pow_clearance"@.len() == 13);
    assert("/"@.len() == 1);
    assert("Lax"@.len() == 3);
}

/// A setting that is not set at a level is taken over from the level above, each of
/// them by itself, whatever else is set.
pub proof fn what_is_not_set_is_inherited(out: LocationConf, here: LocationConf, above: LocationConf)
    requires
        is_merged(out, here, above),
    ensures
        here.enabled == -1 && above.enabled != -1 ==> out.enabled == above.enabled,
        here.trusted is None ==> out.trusted == above.trusted,
        here.decision is None ==> out.decision == above.decision,
        here.difficulty == usize::MAX && above.difficulty != usize::MAX ==> out.difficulty
            == above.difficulty,
        here.hmac_key_file@.len() == 0 && above.hmac_key_file@.len() > 0 ==> out.hmac_key_file@
            == above.hmac_key_file@,
        here.clearance_ttl == -1 && above.clearance_ttl != -1 ==> out.clearance_ttl
            == above.clearance_ttl,
        here.proof_skew == -1 && above.proof_skew != -1 ==> out.proof_skew == above.proof_skew,
        here.require_proof == -1 && above.require_proof != -1 ==> out.require_proof
            == above.require_proof,
        here.endpoint@.len() == 0 && above.endpoint@.len() > 0 ==> out.endpoint@
            == above.endpoint@,
        here.replay == -1 && above.replay != -1 ==> out.replay == above.replay,
        here.replay_max_body == usize::MAX && above.replay_max_body != usize::MAX
            ==> out.replay_max_body == above.replay_max_body,
        here.page_path@.len() == 0 && above.page_path@.len() > 0 ==> out.page_path@
            == above.page_path@,
        here.nojs_page_path@.len() == 0 && above.nojs_page_path@.len() > 0 ==> out.nojs_page_path@
            == above.nojs_page_path@,
        here.cookie_name@.len() == 0 && above.cookie_name@.len() > 0 ==> out.cookie_name@
            == above.cookie_name@,
        here.cookie_domain@.len() == 0 && above.cookie_domain@.len() > 0 ==> out.cookie_domain@
            == above.cookie_domain@,
        here.cookie_path@.len() == 0 && above.cookie_path@.len() > 0 ==> out.cookie_path@
            == above.cookie_path@,
        here.cookie_samesite@.len() == 0 && above.cookie_samesite@.len() > 0
            ==> out.cookie_samesite@ == above.cookie_samesite@,
        here.cookie_secure == -1 && above.cookie_secure != -1 ==> out.cookie_secure
            == above.cookie_secure,
        here.cookie_httponly == -1 && above.cookie_httponly != -1 ==> out.cookie_httponly
            == above.cookie_httponly,
{
}

/// A setting that is set nowhere has its default, each of them by itself.
pub proof fn what_is_set_nowhere_has_its_default(
    out: LocationConf,
    here: LocationConf,
    above: LocationConf,
)
    requires
        is_merged(out, here, above),
    ensures
        here.enabled == -1 && above.enabled == -1 ==> out.enabled == 0,
        here.difficulty == usize::MAX && above.difficulty == usize::MAX ==> out.difficulty == 50000,
        here.hmac_key_file@.len() == 0 && above.hmac_key_file@.len() == 0
            ==> out.hmac_key_file@.len() == 0,
        here.clearance_ttl == -1 && above.clearance_ttl == -1 ==> out.clearance_ttl == 43200,
        here.proof_skew == -1 && above.proof_skew == -1 ==> out.proof_skew == 5,
        here.require_proof == -1 && above.require_proof == -1 ==> out.require_proof == 0,
        here.endpoint@.len() == 0 && above.endpoint@.len() == 0 ==> out.endpoint@ == "/.pow/"@,
        here.replay == -1 && above.replay == -1 ==> out.replay == 1,
        here.replay_max_body == usize::MAX && above.replay_max_body == usize::MAX
            ==> out.replay_max_body == 1048576,
        here.page_path@.len() == 0 && above.page_path@.len() == 0 ==> out.page_path@.len() == 0,
        here.nojs_page_path@.len() == 0 && above.nojs_page_path@.len() == 0
            ==> out.nojs_page_path@.len() == 0,
        here.cookie_name@.len() == 0 && above.cookie_name@.len() == 0 ==> out.cookie_name@
            == "pow_clearance"@,
        here.cookie_domain@.len() == 0 && above.cookie_domain@.len() == 0
            ==> out.cookie_domain@.len() == 0,
        here.cookie_path@.len() == 0 && above.cookie_path@.len() == 0 ==> out.cookie_path@ == "/"@,
        here.cookie_samesite@.len() == 0 && above.cookie_samesite@.len() == 0
            ==> out.cookie_samesite@ == "Lax"@,
        here.cookie_secure == -1 && above.cookie_secure == -1 ==> out.cookie_secure == 1,
        here.cookie_httponly == -1 && above.cookie_httponly == -1 ==> out.cookie_httponly == 1,
{
    reveal_strlit("");
}

/// Pages are loaded for the level itself, and never inherited.
pub proof fn pages_are_not_inherited(out: LocationConf, here: LocationConf, above: LocationConf)
    requires
        is_merged(out, here, above),
    ensures
        out.page_cache@ == here.page_cache@,
        out.nojs_page_cache@ == here.nojs_page_cache@,
{
}

/// What holds at a location holds for its requests: each setting reaches them as it
/// stands, flags as on or off, and the cookie lives for as long as the clearance.
pub proof fn settings_reach_the_requests(cfg: Cfg, lc: LocationConf, key: Seq<u8>)
    requires
        is_resolved(cfg, lc, key),
    ensures
        cfg.key@ == key,
        cfg.key_ok <==> key.len() >= 16,
        cfg.difficulty == lc.difficulty,
        cfg.clearance_ttl == lc.clearance_ttl,
        cfg.proof_skew == lc.proof_skew,
        cfg.require_proof <==> lc.require_proof != 0,
        cfg.endpoint@ == lc.endpoint@,
        cfg.replay <==> lc.replay != 0,
        cfg.replay_max_body == lc.replay_max_body,
        lc.cookie_name@.len() > 0 ==> cfg.cookie.name@ == lc.cookie_name@,
        lc.cookie_name@.len() == 0 ==> cfg.cookie.name@ == "pow_clearance"@,
        lc.cookie_domain@.len() > 0 ==> (cfg.cookie.domain matches Some(d) && d@
            == lc.cookie_domain@),
        lc.cookie_domain@.len() == 0 ==> cfg.cookie.domain is None,
        lc.cookie_path@.len() > 0 ==> cfg.cookie.path@ == lc.cookie_path@,
        lc.cookie_path@.len() == 0 ==> cfg.cookie.path@ == "/"@,
        lc.cookie_samesite@.len() > 0 ==> cfg.cookie.samesite@ == lc.cookie_samesite@,
        lc.cookie_samesite@.len() == 0 ==> cfg.cookie.samesite@ == "Lax"@,
        cfg.cookie.secure <==> lc.cookie_secure != 0,
        cfg.cookie.http_only <==> lc.cookie_httponly != 0,
        cfg.cookie.max_age_secs == lc.clearance_ttl,
{
}

/// A key is usable exactly when it was read and has sixteen bytes at least.
pub proof fn short_keys_are_not_usable(key: Option<Vec<u8>>)
    ensures
        usable(key) <==> (key matches Some(k) && k@.len() >= 16),
{
}

} // verus!
