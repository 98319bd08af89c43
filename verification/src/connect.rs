//! The bounded-retry connection protocol: a state machine that classifies
//! each external attempt, re-prompts on a wrong credential up to a ceiling,
//! aborts at once on a timeout, and never retries any other failure. The
//! external connect command and the prompts run outside; they feed their
//! results in as plain values.

use vstd::prelude::*;
use crate::types::{AccessPoint, ConnectResult, ConnectResultView, SecurityView};
use crate::text::{
    dec_digits, has_sub, lower_seq, contains_ci, split_lines, split_lines_vec, str_eq,
    u64_to_string,
};
use crate::notify::{Notification, NotificationView, Urgency, notification_of};

verus! {

// ───────────────────────── outcome classification ─────────────────────────

/// The markers that mean the credential was refused, matched without regard
/// to ASCII case anywhere in the combined output.
pub open spec fn wrong_credential_marker(folded: Seq<char>) -> bool {
    ||| has_sub(folded, lower_seq("secrets"@))
    ||| has_sub(folded, lower_seq("password"@))
    ||| has_sub(folded, lower_seq("authentication"@))
    ||| has_sub(folded, lower_seq("802-11-wireless-security"@))
}

/// The message reported for an unclassified failure: the last line of the
/// error output, or a fixed notice when there is none.
pub open spec fn fallback_message(err: Seq<char>) -> Seq<char> {
    if split_lines(err).len() == 0 {
        "未知错误"@
    } else {
        split_lines(err).last()
    }
}

/// What a failed attempt's output means: a refused credential wherever one
/// of its markers occurs, else a timeout if that word occurs, else an
/// unclassified failure carrying the last error line.
pub open spec fn classify_spec(err: Seq<char>, out: Seq<char>) -> ConnectResultView {
    let folded = lower_seq(err) + lower_seq(out);
    if wrong_credential_marker(folded) {
        ConnectResultView::WrongPassword
    } else if has_sub(folded, lower_seq("timeout"@)) {
        ConnectResultView::Timeout
    } else {
        ConnectResultView::Failed(fallback_message(err))
    }
}

proof fn lemma_lower_seq_concat(a: Seq<char>, b: Seq<char>)
    ensures
        lower_seq(a + b) =~= lower_seq(a) + lower_seq(b),
{
}

/// Classifies the captured output of a failed connect command.
pub fn classify_failure(err: &str, out: &str) -> (r: ConnectResult)
    ensures
        r@ == classify_spec(err@, out@),
{
    let mut combined = err.to_owned();
    combined.append(out);
    proof {
        lemma_lower_seq_concat(err@, out@);
    }
    if contains_ci(combined.as_str(), "secrets") || contains_ci(combined.as_str(), "password")
        || contains_ci(combined.as_str(), "authentication") || contains_ci(
        combined.as_str(),
        "802-11-wireless-security",
    ) {
        ConnectResult::WrongPassword
    } else if contains_ci(combined.as_str(), "timeout") {
        ConnectResult::Timeout
    } else {
        let lines = split_lines_vec(err);
        if lines.len() == 0 {
            ConnectResult::Failed(String::from_str("未知错误"))
        } else {
            let last = lines[lines.len() - 1].clone();
            proof {
                assert(last@ == split_lines(err@).last());
            }
            ConnectResult::Failed(last)
        }
    }
}

// ───────────────────────── the attempt machine ─────────────────────────

/// Why a connect action ended without a connection.
#[derive(Debug)]
pub enum AbortReason {
    /// The credential was refused on every allowed attempt.
    CredentialsExhausted { attempts: u8 },
    /// The attempt timed out; a retry is never made for this.
    Timeout,
    /// Any other failure, with its reported message.
    Other(String),
}

pub enum AbortReasonView {
    CredentialsExhausted { attempts: u8 },
    Timeout,
    Other(Seq<char>),
}

impl View for AbortReason {
    type V = AbortReasonView;

    open spec fn view(&self) -> AbortReasonView {
        match self {
            AbortReason::CredentialsExhausted { attempts } => {
                AbortReasonView::CredentialsExhausted { attempts: *attempts }
            },
            AbortReason::Timeout => AbortReasonView::Timeout,
            AbortReason::Other(m) => AbortReasonView::Other(m@),
        }
    }
}

/// Where a connect action stands.
#[derive(Debug)]
pub enum ConnPhase {
    /// Waiting for the first credential.
    AwaitingCredential,
    /// Ready to run the external connect command.
    Attempting,
    /// Connected, with the acquired address. Terminal.
    Succeeded { ip: String },
    /// The credential was refused and another attempt is allowed: waiting
    /// for a fresh credential.
    WrongCredentialRetry,
    /// Ended without a connection. Terminal.
    Failed(AbortReason),
    /// The user cancelled a prompt. Terminal and silent.
    Abandoned,
}

pub enum ConnPhaseView {
    AwaitingCredential,
    Attempting,
    Succeeded { ip: Seq<char> },
    WrongCredentialRetry,
    Failed(AbortReasonView),
    Abandoned,
}

impl View for ConnPhase {
    type V = ConnPhaseView;

    open spec fn view(&self) -> ConnPhaseView {
        match self {
            ConnPhase::AwaitingCredential => ConnPhaseView::AwaitingCredential,
            ConnPhase::Attempting => ConnPhaseView::Attempting,
            ConnPhase::Succeeded { ip } => ConnPhaseView::Succeeded { ip: ip@ },
            ConnPhase::WrongCredentialRetry => ConnPhaseView::WrongCredentialRetry,
            ConnPhase::Failed(r) => ConnPhaseView::Failed(r@),
            ConnPhase::Abandoned => ConnPhaseView::Abandoned,
        }
    }
}

/// One connect action against one target network.
#[derive(Debug)]
pub struct ConnectionAttempt {
    pub ssid: String,
    /// The credential the next attempt will use.
    pub credential: Option<String>,
    /// 1-based number of the current attempt.
    pub attempt: u8,
    /// Most attempts allowed.
    pub ceiling: u8,
    pub phase: ConnPhase,
}

pub struct ConnectionAttemptView {
    pub ssid: Seq<char>,
    pub credential: Option<Seq<char>>,
    pub attempt: u8,
    pub ceiling: u8,
    pub phase: ConnPhaseView,
}

impl View for ConnectionAttempt {
    type V = ConnectionAttemptView;

    open spec fn view(&self) -> ConnectionAttemptView {
        ConnectionAttemptView {
            ssid: self.ssid@,
            credential: match &self.credential {
                None => None,
                Some(c) => Some(c@),
            },
            attempt: self.attempt,
            ceiling: self.ceiling,
            phase: self.phase@,
        }
    }
}

/// The machine's invariant: the attempt number never passes the ceiling,
/// and a retry is only pending while another attempt is still allowed.
pub open spec fn conn_wf(m: ConnectionAttemptView) -> bool {
    &&& 1 <= m.attempt <= m.ceiling
    &&& (m.phase is WrongCredentialRetry ==> m.attempt < m.ceiling)
}

/// What handing in a credential (or cancelling) does: a cancelled or empty
/// prompt abandons the action; otherwise the machine moves to `Attempting`,
/// counting a fresh attempt when it was waiting on a retry.
pub open spec fn step_credential(
    m: ConnectionAttemptView,
    cred: Option<Seq<char>>,
) -> ConnectionAttemptView {
    if cred matches Some(c) && c.len() > 0 {
        ConnectionAttemptView {
            credential: Some(cred->0),
            attempt: if m.phase is WrongCredentialRetry {
                (m.attempt + 1) as u8
            } else {
                m.attempt
            },
            phase: ConnPhaseView::Attempting,
            ..m
        }
    } else {
        ConnectionAttemptView { phase: ConnPhaseView::Abandoned, ..m }
    }
}

/// What a classified attempt outcome does: success ends the action with the
/// address; a refused credential retries until the attempt ceiling is
/// reached, then fails stating the count; a timeout or any other failure
/// ends the action at once, never re-prompting.
pub open spec fn step_result(
    m: ConnectionAttemptView,
    result: ConnectResultView,
) -> ConnectionAttemptView {
    match result {
        ConnectResultView::Success { ip } => ConnectionAttemptView {
            phase: ConnPhaseView::Succeeded { ip },
            ..m
        },
        ConnectResultView::WrongPassword => {
            if m.attempt == m.ceiling {
                ConnectionAttemptView {
                    phase: ConnPhaseView::Failed(
                        AbortReasonView::CredentialsExhausted { attempts: m.ceiling },
                    ),
                    ..m
                }
            } else {
                ConnectionAttemptView { phase: ConnPhaseView::WrongCredentialRetry, ..m }
            }
        },
        ConnectResultView::Timeout => ConnectionAttemptView {
            phase: ConnPhaseView::Failed(AbortReasonView::Timeout),
            ..m
        },
        ConnectResultView::Failed(msg) => ConnectionAttemptView {
            phase: ConnPhaseView::Failed(AbortReasonView::Other(msg)),
            ..m
        },
    }
}

impl ConnectionAttempt {
    /// Opens a connect action: a target that needs no credential skips the
    /// prompt and is ready to attempt at once.
    pub fn start(ssid: String, needs_credential: bool, ceiling: u8) -> (m: ConnectionAttempt)
        requires
            ceiling >= 1,
        ensures
            conn_wf(m@),
            m@.ssid == ssid@,
            m@.credential is None,
            m@.attempt == 1,
            m@.ceiling == ceiling,
            m@.phase == if needs_credential {
                ConnPhaseView::AwaitingCredential
            } else {
                ConnPhaseView::Attempting
            },
    {
        ConnectionAttempt {
            ssid,
            credential: None,
            attempt: 1,
            ceiling,
            phase: if needs_credential {
                ConnPhase::AwaitingCredential
            } else {
                ConnPhase::Attempting
            },
        }
    }

    /// Feeds in what the credential prompt returned; `None` is cancellation.
    pub fn provide_credential(&mut self, credential: Option<String>)
        requires
            conn_wf(old(self)@),
            old(self)@.phase is AwaitingCredential || old(self)@.phase is WrongCredentialRetry,
        ensures
            conn_wf(final(self)@),
            final(self)@ == step_credential(
                old(self)@,
                match credential {
                    None => None,
                    Some(c) => Some(c@),
                },
            ),
    {
        match credential {
            Some(c) => {
                if c.as_str().unicode_len() > 0 {
                    if matches!(self.phase, ConnPhase::WrongCredentialRetry) {
                        self.attempt = self.attempt + 1;
                    }
                    self.credential = Some(c);
                    self.phase = ConnPhase::Attempting;
                } else {
                    self.phase = ConnPhase::Abandoned;
                }
            },
            None => {
                self.phase = ConnPhase::Abandoned;
            },
        }
    }

    /// Feeds in the classified outcome of the external connect command.
    pub fn record_result(&mut self, result: ConnectResult)
        requires
            conn_wf(old(self)@),
            old(self)@.phase is Attempting,
        ensures
            conn_wf(final(self)@),
            final(self)@ == step_result(old(self)@, result@),
    {
        match result {
            ConnectResult::Success { ip } => {
                self.phase = ConnPhase::Succeeded { ip };
            },
            ConnectResult::WrongPassword => {
                if self.attempt == self.ceiling {
                    self.phase = ConnPhase::Failed(
                        AbortReason::CredentialsExhausted { attempts: self.ceiling },
                    );
                } else {
                    self.phase = ConnPhase::WrongCredentialRetry;
                }
            },
            ConnectResult::Timeout => {
                self.phase = ConnPhase::Failed(AbortReason::Timeout);
            },
            ConnectResult::Failed(msg) => {
                self.phase = ConnPhase::Failed(AbortReason::Other(msg));
            },
        }
    }
}

// ───────────────────────── retry-ceiling law ─────────────────────────

/// Runs the machine against a target that refuses every credential, always
/// answering the retry prompt with `cred`, and counts the attempts made.
pub open spec fn wrong_credential_run(
    m: ConnectionAttemptView,
    cred: Seq<char>,
) -> (ConnectionAttemptView, nat)
    decreases (m.ceiling - m.attempt) * 2 + (if m.phase is Attempting {
        2 as int
    } else if m.phase is WrongCredentialRetry {
        1 as int
    } else {
        0 as int
    }),
    when conn_wf(m) && cred.len() > 0
    via wrong_credential_run_dec
{
    if m.phase is Attempting {
        let (fin, c) = wrong_credential_run(step_result(m, ConnectResultView::WrongPassword), cred);
        (fin, c + 1)
    } else if m.phase is WrongCredentialRetry {
        wrong_credential_run(step_credential(m, Some(cred)), cred)
    } else {
        (m, 0)
    }
}

#[via_fn]
proof fn wrong_credential_run_dec(m: ConnectionAttemptView, cred: Seq<char>) {
}

/// The retry ceiling holds: against a target that always refuses the
/// credential, an action in `Attempting` makes exactly the attempts it has
/// left — `ceiling` in all, from the first attempt — and then fails with a
/// reason that states that total.
pub proof fn lemma_retry_ceiling(m: ConnectionAttemptView, cred: Seq<char>)
    requires
        conn_wf(m),
        m.phase is Attempting,
        cred.len() > 0,
    ensures
        wrong_credential_run(m, cred).1 == m.ceiling - m.attempt + 1,
        wrong_credential_run(m, cred).0.phase == ConnPhaseView::Failed(
            AbortReasonView::CredentialsExhausted { attempts: m.ceiling },
        ),
    decreases m.ceiling - m.attempt,
{
    let after = step_result(m, ConnectResultView::WrongPassword);
    if m.attempt == m.ceiling {
        assert(wrong_credential_run(after, cred) == (after, 0 as nat));
    } else {
        let retried = step_credential(after, Some(cred));
        assert(retried.phase is Attempting && retried.attempt == m.attempt + 1);
        assert(wrong_credential_run(after, cred) == wrong_credential_run(retried, cred));
        lemma_retry_ceiling(retried, cred);
    }
}

// ───────────────────────── routing ─────────────────────────

/// How a chosen network is connected.
#[derive(Debug, PartialEq, Eq, Structural)]
pub enum ConnectRoute {
    /// A saved profile exists: it is brought up once, with no credential
    /// prompt and no retry loop.
    SavedProfile,
    /// No saved profile: a new connection, prompting for a credential
    /// exactly when the network is not open.
    NewConnection { needs_credential: bool },
}

/// Picks the route: the saved-profile path exactly when the target's SSID
/// is among the saved profile names.
pub fn connect_route(ap: &AccessPoint, saved: &Vec<String>) -> (r: ConnectRoute)
    ensures
        r == (if (exists|i: int| 0 <= i < saved.deep_view().len() && saved.deep_view()[i]
            == ap@.ssid) {
            ConnectRoute::SavedProfile
        } else {
            ConnectRoute::NewConnection { needs_credential: ap@.security != SecurityView::Open }
        }),
{
    let mut i: usize = 0;
    while i < saved.len()
        invariant
            0 <= i <= saved.len(),
            forall|k: int| 0 <= k < i ==> #[trigger] saved.deep_view()[k] != ap@.ssid,
        decreases saved.len() - i,
    {
        if str_eq(saved[i].as_str(), ap.ssid.as_str()) {
            proof {
                assert(saved.deep_view()[i as int] == ap@.ssid);
            }
            return ConnectRoute::SavedProfile;
        }
        proof {
            assert(saved.deep_view()[i as int] == saved@[i as int]@);
        }
        i += 1;
    }
    ConnectRoute::NewConnection { needs_credential: ap.security.needs_password() }
}

// ───────────────────────── notices ─────────────────────────

/// Body of the final failure notice after the ceiling is reached; it
/// spells out the total attempt count.
pub open spec fn exhausted_body(attempts: u8) -> Seq<char> {
    "已重试 "@ + dec_digits(attempts as nat) + " 次，密码始终错误"@
}

/// The exhaustion notice does state the attempt count.
pub proof fn lemma_exhausted_body_states_count(attempts: u8)
    ensures
        has_sub(exhausted_body(attempts), dec_digits(attempts as nat)),
{
    reveal_strlit("已重试 ");
    let p = "已重试 "@;
    let d = dec_digits(attempts as nat);
    assert(exhausted_body(attempts).subrange(p.len() as int, p.len() + d.len() as int) =~= d);
    assert(crate::text::matches_at(exhausted_body(attempts), d, p.len() as int));
}

/// What is announced when a connect action ends without a connection.
pub open spec fn abort_notification_spec(ssid: Seq<char>, reason: AbortReasonView) -> NotificationView {
    match reason {
        AbortReasonView::CredentialsExhausted { attempts } => notification_of(
            Urgency::Critical,
            "连接失败"@,
            exhausted_body(attempts),
        ),
        AbortReasonView::Timeout => notification_of(
            Urgency::Critical,
            "连接超时"@,
            ssid + " 连接超时，请检查信号强度"@,
        ),
        AbortReasonView::Other(m) => notification_of(Urgency::Critical, "连接失败"@, m),
    }
}

pub fn abort_notification(ssid: &str, reason: &AbortReason) -> (r: Notification)
    ensures
        r@ == abort_notification_spec(ssid@, reason@),
{
    match reason {
        AbortReason::CredentialsExhausted { attempts } => {
            let mut body = String::from_str("已重试 ");
            let digits = u64_to_string(*attempts as u64);
            body.append(digits.as_str());
            body.append(" 次，密码始终错误");
            Notification { urgency: Urgency::Critical, title: String::from_str("连接失败"), body }
        },
        AbortReason::Timeout => {
            let mut body = ssid.to_owned();
            body.append(" 连接超时，请检查信号强度");
            Notification { urgency: Urgency::Critical, title: String::from_str("连接超时"), body }
        },
        AbortReason::Other(m) => {
            Notification {
                urgency: Urgency::Critical,
                title: String::from_str("连接失败"),
                body: m.clone(),
            }
        },
    }
}

/// The notice before re-prompting: which entry was wrong, and where the
/// action stands against the ceiling.
pub open spec fn retry_notice_spec(attempt: u8, ceiling: u8) -> NotificationView {
    notification_of(
        Urgency::Critical,
        "密码错误"@,
        "第 "@ + dec_digits((attempt - 1) as nat) + " 次输入有误，请重试 ("@ + dec_digits(
            attempt as nat,
        ) + "/"@ + dec_digits(ceiling as nat) + ")"@,
    )
}

pub fn retry_notice(attempt: u8, ceiling: u8) -> (r: Notification)
    requires
        attempt >= 2,
    ensures
        r@ == retry_notice_spec(attempt, ceiling),
{
    let mut body = String::from_str("第 ");
    let prev = u64_to_string((attempt - 1) as u64);
    body.append(prev.as_str());
    body.append(" 次输入有误，请重试 (");
    let cur = u64_to_string(attempt as u64);
    body.append(cur.as_str());
    body.append("/");
    let max = u64_to_string(ceiling as u64);
    body.append(max.as_str());
    body.append(")");
    Notification { urgency: Urgency::Critical, title: String::from_str("密码错误"), body }
}

/// The hint shown on the retry credential prompt.
pub fn retry_hint(attempt: u8) -> (r: String)
    ensures
        r@ == "第 "@ + dec_digits(attempt as nat) + " 次"@,
{
    let mut out = String::from_str("第 ");
    let digits = u64_to_string(attempt as u64);
    out.append(digits.as_str());
    out.append(" 次");
    out
}

/// The notice shown while an attempt runs.
pub open spec fn connecting_notice_spec(ssid: Seq<char>, attempt: u8, ceiling: u8) -> NotificationView {
    notification_of(
        Urgency::Normal,
        "连接中…"@,
        ssid + "（"@ + dec_digits(attempt as nat) + "/"@ + dec_digits(ceiling as nat) + "）"@,
    )
}

pub fn connecting_notice(ssid: &str, attempt: u8, ceiling: u8) -> (r: Notification)
    ensures
        r@ == connecting_notice_spec(ssid@, attempt, ceiling),
{
    let mut body = ssid.to_owned();
    body.append("（");
    let cur = u64_to_string(attempt as u64);
    body.append(cur.as_str());
    body.append("/");
    let max = u64_to_string(ceiling as u64);
    body.append(max.as_str());
    body.append("）");
    Notification { urgency: Urgency::Normal, title: String::from_str("连接中…"), body }
}

/// The quiet notice after the user abandons the action.
pub fn cancelled_notice(ssid: &str) -> (r: Notification)
    ensures
        r@ == notification_of(Urgency::Low, "已取消"@, "放弃连接 "@ + ssid@),
{
    let mut body = String::from_str("放弃连接 ");
    body.append(ssid);
    Notification { urgency: Urgency::Low, title: String::from_str("已取消"), body }
}

/// The reachability line of the success notice: latency when the probe
/// measured one, a plain confirmation without it, a warning when the probe
/// found the network unreachable.
pub open spec fn net_status_spec(reachable: bool, latency_text: Option<Seq<char>>) -> Seq<char> {
    if reachable {
        match latency_text {
            Some(t) => "✓ 网络畅通 ("@ + t + "ms)"@,
            None => "✓ 网络畅通"@,
        }
    } else {
        "⚠ 已连接但无法访问互联网"@
    }
}

/// The success notice: the network, the acquired address, and what the
/// post-connect reachability probe found.
pub open spec fn success_notice_spec(
    ssid: Seq<char>,
    ip: Seq<char>,
    reachable: bool,
    latency_text: Option<Seq<char>>,
) -> NotificationView {
    notification_of(
        Urgency::Normal,
        "已连接 ✓"@,
        ssid + "\nIP: "@ + ip + "\n"@ + net_status_spec(reachable, latency_text),
    )
}

pub fn success_notice(ssid: &str, ip: &str, reachable: bool, latency_text: Option<&str>) -> (r:
    Notification)
    ensures
        r@ == success_notice_spec(
            ssid@,
            ip@,
            reachable,
            match latency_text {
                None => None,
                Some(t) => Some(t@),
            },
        ),
{
    let mut body = ssid.to_owned();
    body.append("\nIP: ");
    body.append(ip);
    body.append("\n");
    if reachable {
        match latency_text {
            Some(t) => {
                body.append("✓ 网络畅通 (");
                body.append(t);
                body.append("ms)");
            },
            None => {
                body.append("✓ 网络畅通");
            },
        }
    } else {
        body.append("⚠ 已连接但无法访问互联网");
    }
    proof {
        assert(body@ =~= ssid@ + "\nIP: "@ + ip@ + "\n"@ + net_status_spec(
            reachable,
            match latency_text {
                None => None,
                Some(t) => Some(t@),
            },
        ));
    }
    Notification { urgency: Urgency::Normal, title: String::from_str("已连接 ✓"), body }
}

/// The profiles to bring up after joining `ssid`, in configured order.
pub open spec fn vpn_profiles_spec(pairs: Seq<(Seq<char>, Seq<char>)>, ssid: Seq<char>) -> Seq<
    Seq<char>,
>
    decreases pairs.len(),
{
    if pairs.len() == 0 {
        Seq::empty()
    } else {
        (if pairs[0].1 == ssid {
            seq![pairs[0].0]
        } else {
            Seq::empty()
        }) + vpn_profiles_spec(pairs.drop_first(), ssid)
    }
}

/// Picks the profiles whose trigger is the joined SSID.
pub fn vpn_profiles_for(pairs: &Vec<(String, String)>, ssid: &str) -> (r: Vec<String>)
    ensures
        r.deep_view() == vpn_profiles_spec(pairs.deep_view(), ssid@),
{
    let mut out: Vec<String> = Vec::new();
    let ghost pdv = pairs.deep_view();
    let mut i: usize = 0;
    proof {
        assert(pdv.subrange(0, pdv.len() as int) =~= pdv);
    }
    while i < pairs.len()
        invariant
            0 <= i <= pairs.len(),
            pdv == pairs.deep_view(),
            pdv.len() == pairs.len(),
            vpn_profiles_spec(pdv, ssid@) =~= out.deep_view() + vpn_profiles_spec(
                pdv.subrange(i as int, pdv.len() as int),
                ssid@,
            ),
        decreases pairs.len() - i,
    {
        proof {
            let tail = pdv.subrange(i as int, pdv.len() as int);
            assert(tail[0] == pdv[i as int]);
            assert(tail.drop_first() =~= pdv.subrange(i + 1, pdv.len() as int));
            assert(pairs@[i as int].deep_view() == pdv[i as int]);
        }
        let ghost d0 = out.deep_view();
        if str_eq(pairs[i].1.as_str(), ssid) {
            out.push(pairs[i].0.clone());
            proof {
                assert(out.deep_view() =~= d0 + seq![pdv[i as int].0]);
            }
        } else {
            proof {
                assert(out.deep_view() =~= d0 + Seq::<Seq<char>>::empty());
            }
        }
        i += 1;
    }
    proof {
        assert(pdv.subrange(pdv.len() as int, pdv.len() as int)
            =~= Seq::<(Seq<char>, Seq<char>)>::empty());
        assert(out.deep_view() + Seq::<Seq<char>>::empty() =~= out.deep_view());
        assert(out.deep_view() =~= vpn_profiles_spec(pdv, ssid@));
    }
    out
}

} // verus!
