//! Starting again as an administrator: how the program that runs and the one that takes
//! its place find each other, so that never both are gone.

use crate::commands::reply::{refuse, refused};
use crate::json::{member, text_member, Json, JsonV};
use crate::md5::{all_hex, is_hex};
use crate::numbers::{number_in, read_number, signed_dec};
use crate::text::{cat, dec, hex_char, hex_digit, same, strip_front, behind, texts};
use crate::value::{jcount, jint, json_in, jtext, read_json, Fields};
use vstd::prelude::*;

verus! {

/// The mark with which the program is started again.
pub const RELAUNCH_FLAG: &'static str = "--elevated-relaunch";

/// A new program is asked for.
pub const PHASE_REQUESTED: &'static str = "requested";

/// The new program is there.
pub const PHASE_READY: &'static str = "ready";

/// The old program has made way.
pub const PHASE_RELEASED: &'static str = "released";

/// How long the old program waits for the new one, in milliseconds.
pub const HANDSHAKE_TIMEOUT_MS: u64 = 20_000;

/// How long the new program waits for the old one to make way, in milliseconds.
pub const TAKEOVER_TIMEOUT_MS: u64 = 15_000;

/// How often the old program looks, in milliseconds.
pub const OLD_POLL_MS: u64 = 500;

/// How often the new program looks, in milliseconds.
pub const NEW_POLL_MS: u64 = 250;

// ------------------------------------------------------------------------------ the token

/// The last `n` digits of a number in base sixteen.
pub open spec fn hex_text(x: u64, n: nat) -> Seq<char>
    decreases n,
{
    if n == 0 {
        Seq::empty()
    } else {
        hex_text(x / 16, (n - 1) as nat).push(hex_digit((x % 16) as nat))
    }
}

fn push_hex(out: &mut String, x: u64, n: usize)
    ensures
        final(out)@ == old(out)@ + hex_text(x, n as nat),
    decreases n,
{
    let ghost start = out@;
    if n > 0 {
        push_hex(out, x / 16, n - 1);
        out.push(hex_char((x % 16) as u8));
    }
    assert(out@ =~= start + hex_text(x, n as nat));
}

/// The token of a request, from a number drawn for it.
pub fn new_nonce(drawn: u64) -> (out: String)
    ensures
        out@ == hex_text(drawn, 16),
{
    let mut out: String = String::new();
    push_hex(&mut out, drawn, 16);
    assert(out@ =~= hex_text(drawn, 16));
    out
}

// -------------------------------------------------------------------------- the handshake

/// What is written down of a request.
pub open spec fn handshake_value(nonce: Seq<char>, phase: Seq<char>, pid: nat, at: int) -> JsonV {
    JsonV::Obj(
        seq![
            ("nonce"@, JsonV::Str(nonce)),
            ("phase"@, JsonV::Str(phase)),
            ("pid"@, JsonV::Num(dec(pid))),
            ("at"@, JsonV::Num(signed_dec(at))),
        ],
    )
}

/// What is written down of a request.
pub fn handshake_record(nonce: &str, phase: &str, pid: u32, at: i64) -> (out: Json)
    ensures
        out.view() == handshake_value(nonce@, phase@, pid as nat, at as int),
{
    let f: Fields = Fields::new().with("nonce", jtext(nonce)).with("phase", jtext(phase)).with(
        "pid",
        jcount(pid as u64),
    ).with("at", jint(at));
    assert(f.view() =~= handshake_value(nonce@, phase@, pid as nat, at as int)->Obj_0);
    f.object()
}

/// What was read of a request: the token, the phase, and who has written it.
#[derive(Debug)]
pub struct Handshake {
    pub nonce: String,
    pub phase: String,
    pub pid: u32,
}

/// The mathematical value of what was read of a request.
pub struct HandshakeV {
    pub nonce: Seq<char>,
    pub phase: Seq<char>,
    pub pid: u32,
}

impl Handshake {
    pub open spec fn view(self) -> HandshakeV {
        HandshakeV { nonce: self.nonce@, phase: self.phase@, pid: self.pid }
    }
}

/// Who has written something down; nobody where it does not say so. Of a number that is
/// too large the low half counts.
pub open spec fn writer_of(v: JsonV) -> u32 {
    match member(v, "pid"@) {
        Some(JsonV::Num(t)) => match number_in(t) {
            Some(n) => (n % 0x1_0000_0000) as u32,
            None => 0,
        },
        _ => 0,
    }
}

/// What a text says of a request, if it can be read.
pub open spec fn handshake_in(text: Seq<char>) -> Option<HandshakeV> {
    match json_in(text) {
        Some(v) => match (text_member(v, "nonce"@), text_member(v, "phase"@)) {
            (Some(nonce), Some(phase)) => Some(HandshakeV { nonce, phase, pid: writer_of(v) }),
            _ => None,
        },
        None => None,
    }
}

/// What a text says of a request, if it can be read.
pub fn read_handshake(text: &str) -> (out: Option<Handshake>)
    ensures
        match out {
            Some(h) => handshake_in(text@) == Some(h.view()),
            None => handshake_in(text@) is None,
        },
{
    let v: Json = match read_json(text) {
        Some(v) => v,
        None => {
            return None;
        },
    };
    let nonce: String = match v.text("nonce") {
        Some(n) => n.to_owned(),
        None => {
            return None;
        },
    };
    let phase: String = match v.text("phase") {
        Some(p) => p.to_owned(),
        None => {
            return None;
        },
    };
    let pid: u32 = match v.get("pid") {
        Some(Json::Num(t)) => match read_number(t.as_str()) {
            Some(n) => (n % 0x1_0000_0000) as u32,
            None => 0,
        },
        _ => 0,
    };
    Some(Handshake { nonce, phase, pid })
}

/// Whether what was written down belongs to a request and a phase: the token must be the
/// very same.
pub fn handshake_matches(file_nonce: &str, phase: &str, want: &str, want_phase: &str) -> (out: bool)
    ensures
        out == (file_nonce@ == want@ && phase@ == want_phase@),
{
    same(file_nonce, want) && same(phase, want_phase)
}

/// What the system says of a process: there is none, it cannot be looked at, it runs, or
/// it has ended.
#[derive(Debug, Clone, Copy, PartialEq, Eq, Structural)]
pub enum Probe {
    Missing,
    Denied,
    Running,
    Ended,
}

/// Whether whoever has written something down is surely gone. Nobody, and this program
/// itself, are no proof that another program runs; what cannot be looked at counts as
/// running.
pub fn takeover_writer_gone(pid: u32, own: u32, probe: Probe) -> (out: bool)
    ensures
        out == (pid == 0 || pid == own || probe == Probe::Missing || probe == Probe::Ended),
{
    pid == 0 || pid == own || match probe {
        Probe::Missing => true,
        Probe::Ended => true,
        Probe::Denied => false,
        Probe::Running => false,
    }
}

/// Whether a program was started to take the place of another: it has a token, it is an
/// administrator's, and the token is that of a request that waits.
pub open spec fn is_pending(
    nonce: Option<Seq<char>>,
    admin: bool,
    handshake: Option<(Seq<char>, Seq<char>)>,
) -> bool {
    match (nonce, handshake) {
        (Some(n), Some(h)) => admin && h.0 == n && h.1 == "requested"@,
        _ => false,
    }
}

/// Whether a program was started to take the place of another.
pub fn takeover_pending(nonce: Option<&str>, admin: bool, handshake: Option<(&str, &str)>) -> (out:
    bool)
    ensures
        out == is_pending(
            match nonce {
                Some(n) => Some(n@),
                None => None,
            },
            admin,
            match handshake {
                Some(h) => Some((h.0@, h.1@)),
                None => None,
            },
        ),
{
    match nonce {
        Some(n) => match handshake {
            Some(h) => admin && same(h.0, n) && same(h.1, "requested"),
            None => false,
        },
        None => false,
    }
}

/// The token among the arguments from `i` on.
pub open spec fn token_in(args: Seq<Seq<char>>, i: int) -> Option<Seq<char>>
    decreases args.len() - i,
{
    if i < 0 || i >= args.len() {
        None
    } else {
        match behind(args[i], "--elevated-relaunch="@) {
            Some(n) => Some(n),
            None => token_in(args, i + 1),
        }
    }
}

/// The token among the arguments with which a program was started.
pub fn relaunch_nonce(args: &Vec<String>) -> (out: Option<String>)
    ensures
        match out {
            Some(n) => token_in(texts(args@), 0) == Some(n@),
            None => token_in(texts(args@), 0) is None,
        },
{
    let ghost av = texts(args@);
    assert(av.len() == args@.len());
    let mut i: usize = 0;
    while i < args.len()
        invariant
            i <= args@.len(),
            av == texts(args@),
            av.len() == args@.len(),
            token_in(av, 0) == token_in(av, i as int),
        decreases args@.len() - i,
    {
        assert(av[i as int] == args@[i as int]@);
        if let Some(n) = strip_front(args[i].as_str(), "--elevated-relaunch=") {
            return Some(n);
        }
        i += 1;
    }
    None
}

/// Whether this program was started to take the place of another, by its arguments, its
/// rights and what was written down.
pub fn elevation_takeover_pending(args: &Vec<String>, admin: bool, written: Option<&str>) -> (out:
    bool)
    ensures
        out == is_pending(
            token_in(texts(args@), 0),
            admin,
            match written {
                Some(t) => match handshake_in(t@) {
                    Some(h) => Some((h.nonce, h.phase)),
                    None => None,
                },
                None => None,
            },
        ),
{
    let nonce: Option<String> = relaunch_nonce(args);
    let h: Option<Handshake> = match written {
        Some(t) => read_handshake(t),
        None => None,
    };
    match &nonce {
        Some(n) => match &h {
            Some(h) => takeover_pending(
                Some(n.as_str()),
                admin,
                Some((h.nonce.as_str(), h.phase.as_str())),
            ),
            None => takeover_pending(Some(n.as_str()), admin, None),
        },
        None => false,
    }
}

// ------------------------------------------------------------------------- the two sides

/// What the new program does: the old one has made way, it waits, or it starts without.
#[derive(Debug, Clone, Copy, PartialEq, Eq, Structural)]
pub enum NewStep {
    Released,
    Wait,
    TimedOut,
}

/// What the new program does, by what was read and how long it has waited.
pub open spec fn new_side(h: Option<HandshakeV>, nonce: Seq<char>, waited_ms: u64) -> NewStep {
    if h matches Some(r) && r.nonce == nonce && r.phase == "released"@ {
        NewStep::Released
    } else if waited_ms > TAKEOVER_TIMEOUT_MS {
        NewStep::TimedOut
    } else {
        NewStep::Wait
    }
}

/// What the new program does.
pub fn new_step(h: &Option<Handshake>, nonce: &str, waited_ms: u64) -> (out: NewStep)
    ensures
        out == new_side(
            match h {
                Some(r) => Some(r.view()),
                None => None,
            },
            nonce@,
            waited_ms,
        ),
{
    if let Some(r) = h {
        if handshake_matches(r.nonce.as_str(), r.phase.as_str(), nonce, "released") {
            return NewStep::Released;
        }
    }
    if waited_ms > TAKEOVER_TIMEOUT_MS {
        NewStep::TimedOut
    } else {
        NewStep::Wait
    }
}

/// What the old program does: it makes way, it waits, or it stays.
#[derive(Debug, Clone, Copy, PartialEq, Eq, Structural)]
pub enum OldStep {
    MakeWay,
    Wait,
    Stay,
}

/// What the old program does: it makes way only for a program that has answered this very
/// request and is not surely gone.
pub open spec fn old_side(
    h: Option<HandshakeV>,
    nonce: Seq<char>,
    own: u32,
    probe: Probe,
    waited_ms: u64,
) -> OldStep {
    if h matches Some(r) && r.nonce == nonce && r.phase == "ready"@ && r.pid != 0 && r.pid != own
        && (probe == Probe::Denied || probe == Probe::Running) {
        OldStep::MakeWay
    } else if waited_ms > HANDSHAKE_TIMEOUT_MS {
        OldStep::Stay
    } else {
        OldStep::Wait
    }
}

/// What the old program does.
pub fn old_step(
    h: &Option<Handshake>,
    nonce: &str,
    own: u32,
    probe: Probe,
    waited_ms: u64,
) -> (out: OldStep)
    ensures
        out == old_side(
            match h {
                Some(r) => Some(r.view()),
                None => None,
            },
            nonce@,
            own,
            probe,
            waited_ms,
        ),
{
    if let Some(r) = h {
        if handshake_matches(r.nonce.as_str(), r.phase.as_str(), nonce, "ready")
            && !takeover_writer_gone(r.pid, own, probe) {
            return OldStep::MakeWay;
        }
    }
    if waited_ms > HANDSHAKE_TIMEOUT_MS {
        OldStep::Stay
    } else {
        OldStep::Wait
    }
}

/// What the window is told where no new program has come.
pub fn stay_notice() -> (out: Json)
    ensures
        out.view() == JsonV::Obj(
            seq![("message"@, JsonV::Str("未检测到新实例启动，已保持当前运行状态"@))],
        ),
{
    let f: Fields = Fields::new().with(
        "message",
        jtext("未检测到新实例启动，已保持当前运行状态"),
    );
    assert(f.view() =~= seq![("message"@, JsonV::Str("未检测到新实例启动，已保持当前运行状态"@))]);
    f.object()
}

/// The argument with which the program is started again.
pub fn relaunch_argument(nonce: &str) -> (out: String)
    ensures
        out@ == "--elevated-relaunch="@ + nonce@,
{
    cat("--elevated-relaunch=", nonce)
}

/// How a request to start again went: it could not be written down, the program could not
/// be found, it was not allowed, or it was started.
#[derive(Debug)]
pub enum Launch {
    NotWritten,
    NoProgram(String),
    Refused,
    Started,
}

/// The reply to a request to start again.
pub fn request_reply(l: &Launch) -> (out: Json)
    ensures
        out.view() == (match l {
            Launch::NotWritten => refused("无法写入提权握手状态，已拒绝提权"@),
            Launch::NoProgram(m) => refused(m@),
            Launch::Refused => refused("提权请求被取消或失败"@),
            Launch::Started => JsonV::Obj(
                seq![("success"@, JsonV::Bool(true)), ("relaunching"@, JsonV::Bool(true))],
            ),
        }),
{
    match l {
        Launch::NotWritten => refuse("无法写入提权握手状态，已拒绝提权"),
        Launch::NoProgram(m) => refuse(m.as_str()),
        Launch::Refused => refuse("提权请求被取消或失败"),
        Launch::Started => {
            let f: Fields = Fields::new().with("success", Json::Bool(true)).with(
                "relaunching",
                Json::Bool(true),
            );
            assert(f.view() =~= seq![
                ("success"@, JsonV::Bool(true)),
                ("relaunching"@, JsonV::Bool(true)),
            ]);
            f.object()
        },
    }
}

// ---------------------------------------------------------------------------------- laws

/// A token has sixteen digits in base sixteen, and two numbers never give the same one.
pub proof fn law_nonce(a: u64, b: u64)
    ensures
        hex_text(a, 16).len() == 16,
        all_hex(hex_text(a, 16)),
        hex_text(a, 16) == hex_text(b, 16) ==> a == b,
{
    lemma_hex_shape(a, 16);
    assert(power16(16) == 0x1_0000_0000_0000_0000) by {
        reveal_with_fuel(power16, 17);
    }
    if hex_text(a, 16) == hex_text(b, 16) {
        lemma_hex_same(a, b, 16);
    }
}

spec fn power16(n: nat) -> nat
    decreases n,
{
    if n == 0 {
        1
    } else {
        16 * power16((n - 1) as nat)
    }
}

proof fn lemma_hex_shape(x: u64, n: nat)
    ensures
        hex_text(x, n).len() == n,
        all_hex(hex_text(x, n)),
    decreases n,
{
    if n > 0 {
        lemma_hex_shape(x / 16, (n - 1) as nat);
        let before = hex_text(x / 16, (n - 1) as nat);
        let now = hex_text(x, n);
        assert forall|i: int| 0 <= i < now.len() implies is_hex(#[trigger] now[i]) by {
            if i < before.len() {
                assert(is_hex(before[i]));
            }
        }
    }
}

proof fn lemma_hex_same(a: u64, b: u64, n: nat)
    requires
        hex_text(a, n) == hex_text(b, n),
        a < power16(n),
        b < power16(n),
    ensures
        a == b,
    decreases n,
{
    if n > 0 {
        let ra = hex_text(a / 16, (n - 1) as nat);
        let rb = hex_text(b / 16, (n - 1) as nat);
        assert(ra =~= hex_text(a, n).drop_last());
        assert(rb =~= hex_text(b, n).drop_last());
        assert(hex_text(a, n).last() == hex_digit((a % 16) as nat));
        assert(hex_text(b, n).last() == hex_digit((b % 16) as nat));
        lemma_hex_same(a / 16, b / 16, (n - 1) as nat);
    }
}

/// The old program never makes way for what it has written itself, nor for what belongs to
/// another request.
pub proof fn law_no_way_without_successor(
    h: HandshakeV,
    nonce: Seq<char>,
    own: u32,
    probe: Probe,
    waited_ms: u64,
)
    requires
        h.pid == own || h.nonce != nonce || probe == Probe::Missing || probe == Probe::Ended,
    ensures
        old_side(Some(h), nonce, own, probe, waited_ms) != OldStep::MakeWay,
{
}

/// Neither program waits for ever.
pub proof fn law_waiting_ends(
    h: Option<HandshakeV>,
    nonce: Seq<char>,
    own: u32,
    probe: Probe,
    waited_ms: u64,
)
    requires
        waited_ms > HANDSHAKE_TIMEOUT_MS,
    ensures
        old_side(h, nonce, own, probe, waited_ms) != OldStep::Wait,
        new_side(h, nonce, waited_ms) != NewStep::Wait,
{
}

/// The mark alone, without a request that waits and without the rights, starts nothing.
pub proof fn law_mark_alone_is_nothing(
    nonce: Option<Seq<char>>,
    admin: bool,
    handshake: Option<(Seq<char>, Seq<char>)>,
)
    requires
        !admin || handshake is None,
    ensures
        !is_pending(nonce, admin, handshake),
{
}

} // verus!
