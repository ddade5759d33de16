//! SSH local-port-forward tunnels: the persisted registry of bindings, the
//! tunnel process's arguments, and the decisions taken on what the process
//! and the signal delivery report.
use vstd::prelude::*;
use crate::doctl::{Settings, u64_text};
use crate::names::decimal;
use crate::text::strs_view;

verus! {

/// A local port forwarded to a port of a droplet.
#[derive(Debug, Clone)]
pub struct PortBinding {
    pub droplet_id: u64,
    pub droplet_name: String,
    pub public_ip: String,
    pub local_port: u16,
    pub remote_port: u16,
    pub ssh_user: String,
    pub ssh_key_path: String,
    pub ssh_port: u16,
    /// Seconds since the Unix epoch.
    pub created_at: i64,
    pub tunnel_pid: Option<u32>,
}

impl PortBinding {
    pub fn copy(&self) -> (r: PortBinding)
        ensures
            r == *self,
    {
        PortBinding {
            droplet_id: self.droplet_id,
            droplet_name: self.droplet_name.clone(),
            public_ip: self.public_ip.clone(),
            local_port: self.local_port,
            remote_port: self.remote_port,
            ssh_user: self.ssh_user.clone(),
            ssh_key_path: self.ssh_key_path.clone(),
            ssh_port: self.ssh_port,
            created_at: self.created_at,
            tunnel_pid: self.tunnel_pid,
        }
    }
}

/// The persisted registry.
#[derive(Debug, Clone)]
pub struct AppStateFile {
    pub bindings: Vec<PortBinding>,
    pub settings: Settings,
}

/// No two bindings share a local port.
pub open spec fn ports_unique(b: Seq<PortBinding>) -> bool {
    forall|i: int, j: int|
        0 <= i < b.len() && 0 <= j < b.len() && i != j ==> b[i].local_port != b[j].local_port
}

impl AppStateFile {
    pub open spec fn wf(&self) -> bool {
        ports_unique(self.bindings@)
    }
}

/// Whether some binding uses the local port `port`.
pub open spec fn port_used(b: Seq<PortBinding>, port: u16) -> bool {
    exists|i: int| 0 <= i < b.len() && b[i].local_port == port
}

/// The binding that uses the local port `port`, if any.
pub fn port_in_registry(state: &AppStateFile, port: u16) -> (r: Option<&PortBinding>)
    ensures
        r is None <==> !port_used(state.bindings@, port),
        r matches Some(b) ==> b.local_port == port && state.bindings@.contains(*b),
{
    let mut i: usize = 0;
    while i < state.bindings.len()
        invariant
            i <= state.bindings@.len(),
            forall|k: int| 0 <= k < i ==> state.bindings@[k].local_port != port,
        decreases state.bindings.len() - i,
    {
        if state.bindings[i].local_port == port {
            assert(state.bindings@[i as int] == state.bindings@[i as int]);
            return Some(&state.bindings[i]);
        }
        i += 1;
    }
    None
}

/// Adds a started tunnel to the registry, unless its local port is taken.
pub fn record_binding(state: &mut AppStateFile, binding: PortBinding) -> (added: bool)
    requires
        old(state).wf(),
    ensures
        final(state).wf(),
        added == !port_used(old(state).bindings@, binding.local_port),
        added ==> final(state).bindings@ == old(state).bindings@.push(binding),
        !added ==> final(state).bindings@ == old(state).bindings@,
        final(state).settings == old(state).settings,
{
    if port_in_registry(state, binding.local_port).is_some() {
        return false;
    }
    state.bindings.push(binding);
    true
}

/// The bindings of `b` whose local port is not `port`, in order.
pub open spec fn without_port(b: Seq<PortBinding>, port: u16) -> Seq<PortBinding>
    decreases b.len(),
{
    if b.len() == 0 {
        b
    } else if b.last().local_port == port {
        without_port(b.drop_last(), port)
    } else {
        without_port(b.drop_last(), port).push(b.last())
    }
}

proof fn lemma_without_port(b: Seq<PortBinding>, port: u16)
    ensures
        forall|q: u16| #[trigger] port_used(without_port(b, port), q) ==> port_used(b, q) && q != port,
        ports_unique(b) ==> ports_unique(without_port(b, port)),
    decreases b.len(),
{
    if b.len() > 0 {
        let front = b.drop_last();
        lemma_without_port(front, port);
        let w = without_port(b, port);
        let wf = without_port(front, port);
        let n = b.len() - 1;
        assert forall|q: u16| port_used(w, q) implies port_used(b, q) && q != port by {
            let k = choose|k: int| 0 <= k < w.len() && w[k].local_port == q;
            if k < wf.len() {
                assert(wf[k] == w[k]);
                assert(port_used(wf, q));
                let m = choose|m: int| 0 <= m < front.len() && front[m].local_port == q;
                assert(b[m] == front[m]);
            } else {
                assert(b[n] == w[k]);
            }
        }
        if ports_unique(b) {
            assert(ports_unique(front)) by {
                assert forall|i: int, j: int|
                    0 <= i < front.len() && 0 <= j < front.len() && i != j implies front[i].local_port
                    != front[j].local_port by {
                    assert(front[i] == b[i] && front[j] == b[j]);
                }
            }
            if b[n].local_port != port {
                assert forall|i: int, j: int|
                    0 <= i < w.len() && 0 <= j < w.len() && i != j implies w[i].local_port
                    != w[j].local_port by {
                    if i < wf.len() && j < wf.len() {
                        assert(w[i] == wf[i] && w[j] == wf[j]);
                    } else {
                        let k = if i < wf.len() { i } else { j };
                        assert(w[k] == wf[k]);
                        if wf[k].local_port == b[n].local_port {
                            assert(port_used(wf, b[n].local_port));
                            let m = choose|m: int|
                                0 <= m < front.len() && front[m].local_port == b[n].local_port;
                            assert(b[m] == front[m]);
                        }
                    }
                }
            }
        }
    }
}

/// Drops the binding of the local port `port`, once its tunnel is stopped.
pub fn remove_binding(state: &mut AppStateFile, port: u16)
    requires
        old(state).wf(),
    ensures
        final(state).wf(),
        final(state).bindings@ == without_port(old(state).bindings@, port),
        !port_used(final(state).bindings@, port),
        final(state).settings == old(state).settings,
{
    let ghost b = state.bindings@;
    let mut kept: Vec<PortBinding> = Vec::new();
    let mut i: usize = 0;
    while i < state.bindings.len()
        invariant
            i <= state.bindings@.len(),
            b == state.bindings@,
            kept@ == without_port(b.take(i as int), port),
        decreases state.bindings.len() - i,
    {
        proof {
            assert(b.take(i + 1).drop_last() =~= b.take(i as int));
        }
        if state.bindings[i].local_port != port {
            kept.push(state.bindings[i].copy());
        }
        i += 1;
    }
    proof {
        assert(b.take(b.len() as int) =~= b);
        lemma_without_port(b, port);
    }
    state.bindings = kept;
}

/// A new binding, not yet backed by a tunnel process.
pub fn new_binding(
    droplet_id: u64,
    droplet_name: String,
    public_ip: String,
    local_port: u16,
    remote_port: u16,
    ssh_user: String,
    ssh_key_path: String,
    ssh_port: u16,
    created_at: i64,
) -> (r: PortBinding)
    ensures
        r == (PortBinding {
            droplet_id,
            droplet_name,
            public_ip,
            local_port,
            remote_port,
            ssh_user,
            ssh_key_path,
            ssh_port,
            created_at,
            tunnel_pid: None,
        }),
{
    PortBinding {
        droplet_id,
        droplet_name,
        public_ip,
        local_port,
        remote_port,
        ssh_user,
        ssh_key_path,
        ssh_port,
        created_at,
        tunnel_pid: None,
    }
}

/// The forwarding rule of a binding: `127.0.0.1:<local>:127.0.0.1:<remote>`.
pub open spec fn forward_rule(local: u16, remote: u16) -> Seq<char> {
    "127.0.0.1:"@ + decimal(local as nat) + ":127.0.0.1:"@ + decimal(remote as nat)
}

/// The arguments of the `ssh` process that forwards `binding`'s local port:
/// no remote command, the forward, exit when forwarding fails, keep-alive
/// probes, the key, the port, and `user@ip`.
pub open spec fn tunnel_command(binding: PortBinding) -> Seq<Seq<char>> {
    seq![
        "-N"@,
        "-L"@,
        forward_rule(binding.local_port, binding.remote_port),
        "-o"@,
        "ExitOnForwardFailure=yes"@,
        "-o"@,
        "ServerAliveInterval=30"@,
        "-o"@,
        "ServerAliveCountMax=3"@,
        "-i"@,
        binding.ssh_key_path@,
        "-p"@,
        decimal(binding.ssh_port as nat),
        binding.ssh_user@ + "@"@ + binding.public_ip@,
    ]
}

/// `tunnel_command(binding)`.
pub fn spawn_ssh_tunnel_args(binding: &PortBinding) -> (r: Vec<String>)
    ensures
        strs_view(r@) == tunnel_command(*binding),
{
    let mut forward = String::from_str("127.0.0.1:");
    forward.append(u64_text(binding.local_port as u64).as_str());
    forward.append(":127.0.0.1:");
    forward.append(u64_text(binding.remote_port as u64).as_str());
    let mut target = binding.ssh_user.clone();
    target.append("@");
    target.append(binding.public_ip.as_str());
    let mut r: Vec<String> = Vec::new();
    r.push(String::from_str("-N"));
    r.push(String::from_str("-L"));
    r.push(forward);
    r.push(String::from_str("-o"));
    r.push(String::from_str("ExitOnForwardFailure=yes"));
    r.push(String::from_str("-o"));
    r.push(String::from_str("ServerAliveInterval=30"));
    r.push(String::from_str("-o"));
    r.push(String::from_str("ServerAliveCountMax=3"));
    r.push(String::from_str("-i"));
    r.push(binding.ssh_key_path.clone());
    r.push(String::from_str("-p"));
    r.push(u64_text(binding.ssh_port as u64));
    r.push(target);
    assert(strs_view(r@) =~= tunnel_command(*binding));
    r
}

/// What polling the tunnel process once, after the grace interval, found.
#[derive(Debug, Clone)]
pub enum TunnelPoll {
    /// Still running, with this process id.
    Running(u32),
    /// Already exited, with its exit status and what it wrote to stderr.
    Exited { status: String, stderr: String },
    /// The poll itself failed.
    PollFailed(String),
}

/// The outcome of starting a tunnel, from the one poll made after the grace
/// interval: a running process is accepted and its id recorded in the
/// binding as the liveness token; otherwise the start fails with the
/// process's diagnostics and the binding is left as it was.
pub fn start_tunnel(binding: &mut PortBinding, poll: TunnelPoll) -> (r: Result<u32, String>)
    ensures
        match poll {
            TunnelPoll::Running(pid) => r == Ok::<u32, String>(pid) && *final(binding) == (PortBinding {
                tunnel_pid: Some(pid),
                ..*old(binding)
            }),
            TunnelPoll::Exited { status, stderr } => (r matches Err(e) && e@ == "SSH tunnel exited early ("@
                + status@ + "). "@ + stderr@) && *final(binding) == *old(binding),
            TunnelPoll::PollFailed(err) => (r matches Err(e) && e@ == "Failed to poll SSH tunnel: "@
                + err@) && *final(binding) == *old(binding),
        },
{
    match poll {
        TunnelPoll::Running(pid) => {
            binding.tunnel_pid = Some(pid);
            Ok(pid)
        },
        TunnelPoll::Exited { status, stderr } => {
            let mut e = String::from_str("SSH tunnel exited early (");
            e.append(status.as_str());
            e.append("). ");
            e.append(stderr.as_str());
            Err(e)
        },
        TunnelPoll::PollFailed(err) => {
            let mut e = String::from_str("Failed to poll SSH tunnel: ");
            e.append(err.as_str());
            Err(e)
        },
    }
}

/// What delivering the termination signal to a tunnel process came to.
#[derive(Debug, Clone, Copy, PartialEq, Eq)]
pub enum SignalDelivery {
    Delivered,
    /// No process has that id any more.
    NoSuchProcess,
    /// The process exists and the signal could not be delivered.
    Failed,
}

/// The outcome of stopping the tunnel `pid`: a process that is already gone
/// is stopped; only a failed delivery to a live process is an error.
pub fn stop_tunnel(pid: u32, delivery: SignalDelivery) -> (r: Result<(), String>)
    ensures
        r is Ok <==> delivery != SignalDelivery::Failed,
        r matches Err(e) ==> e@ == "Failed to send SIGTERM to PID "@ + decimal(pid as nat),
{
    match delivery {
        SignalDelivery::Failed => {
            let mut e = String::from_str("Failed to send SIGTERM to PID ");
            e.append(u64_text(pid as u64).as_str());
            Err(e)
        },
        _ => Ok(()),
    }
}

/// The bindings of `b` whose tunnel is known and alive, by `alive`.
pub open spec fn live_bindings(b: Seq<PortBinding>, alive: Seq<bool>) -> Seq<PortBinding>
    decreases b.len(),
{
    if b.len() == 0 {
        b
    } else {
        let rest = live_bindings(b.drop_last(), alive);
        if b.last().tunnel_pid is Some && alive[b.len() - 1] {
            rest.push(b.last())
        } else {
            rest
        }
    }
}

/// Drops the stale bindings: those without a tunnel process and those whose
/// process is gone (`alive[i]` tells for the `i`-th binding). Returns how
/// many were dropped.
pub fn cleanup_stale(state: &mut AppStateFile, alive: &[bool]) -> (removed: usize)
    requires
        old(state).wf(),
        alive@.len() == old(state).bindings@.len(),
    ensures
        final(state).wf(),
        final(state).bindings@ == live_bindings(old(state).bindings@, alive@),
        removed == old(state).bindings@.len() - final(state).bindings@.len(),
        final(state).settings == old(state).settings,
{
    let ghost b = state.bindings@;
    let mut kept: Vec<PortBinding> = Vec::new();
    let mut i: usize = 0;
    while i < state.bindings.len()
        invariant
            i <= state.bindings@.len(),
            b == state.bindings@,
            alive@.len() == b.len(),
            kept@ == live_bindings(b.take(i as int), alive@),
            kept@.len() <= i,
        decreases state.bindings.len() - i,
    {
        proof {
            assert(b.take(i + 1).drop_last() =~= b.take(i as int));
        }
        if state.bindings[i].tunnel_pid.is_some() && alive[i] {
            kept.push(state.bindings[i].copy());
        }
        i += 1;
    }
    proof {
        assert(b.take(b.len() as int) =~= b);
        lemma_live_bindings(b, alive@);
    }
    let removed = state.bindings.len() - kept.len();
    state.bindings = kept;
    removed
}

proof fn lemma_live_bindings(b: Seq<PortBinding>, alive: Seq<bool>)
    requires
        alive.len() >= b.len(),
    ensures
        forall|q: u16| #[trigger] port_used(live_bindings(b, alive), q) ==> port_used(b, q),
        ports_unique(b) ==> ports_unique(live_bindings(b, alive)),
        live_bindings(b, alive).len() <= b.len(),
    decreases b.len(),
{
    if b.len() > 0 {
        let front = b.drop_last();
        lemma_live_bindings(front, alive);
        let w = live_bindings(b, alive);
        let wf = live_bindings(front, alive);
        let n = b.len() - 1;
        assert forall|q: u16| port_used(w, q) implies port_used(b, q) by {
            let k = choose|k: int| 0 <= k < w.len() && w[k].local_port == q;
            if k < wf.len() {
                assert(wf[k] == w[k]);
                assert(port_used(wf, q));
                let m = choose|m: int| 0 <= m < front.len() && front[m].local_port == q;
                assert(b[m] == front[m]);
            } else {
                assert(b[n] == w[k]);
            }
        }
        if ports_unique(b) {
            assert(ports_unique(front)) by {
                assert forall|i: int, j: int|
                    0 <= i < front.len() && 0 <= j < front.len() && i != j implies front[i].local_port
                    != front[j].local_port by {
                    assert(front[i] == b[i] && front[j] == b[j]);
                }
            }
            if b[n].tunnel_pid is Some && alive[n] {
                assert forall|i: int, j: int|
                    0 <= i < w.len() && 0 <= j < w.len() && i != j implies w[i].local_port
                    != w[j].local_port by {
                    if i < wf.len() && j < wf.len() {
                        assert(w[i] == wf[i] && w[j] == wf[j]);
                    } else {
                        let k = if i < wf.len() { i } else { j };
                        assert(w[k] == wf[k]);
                        if wf[k].local_port == b[n].local_port {
                            assert(port_used(wf, b[n].local_port));
                            let m = choose|m: int|
                                0 <= m < front.len() && front[m].local_port == b[n].local_port;
                            assert(b[m] == front[m]);
                        }
                    }
                }
            }
        }
    }
}

/// The settings offered when none are saved: user `root`, the key
/// `<home>/.ssh/id_rsa`, port 22.
pub fn default_settings(home: &str) -> (r: Settings)
    ensures
        r.default_ssh_user@ == "root"@,
        r.default_ssh_key_path@ == home@ + "/.ssh/id_rsa"@,
        r.default_ssh_port == 22,
{
    let mut key = String::from_str(home);
    key.append("/.ssh/id_rsa");
    Settings { default_ssh_user: String::from_str("root"), default_ssh_key_path: key, default_ssh_port: 22 }
}

/// An empty registry with the default settings.
pub fn default_state(home: &str) -> (r: AppStateFile)
    ensures
        r.wf(),
        r.bindings@.len() == 0,
        r.settings.default_ssh_user@ == "root"@,
        r.settings.default_ssh_key_path@ == home@ + "/.ssh/id_rsa"@,
        r.settings.default_ssh_port == 22,
{
    AppStateFile { bindings: Vec::new(), settings: default_settings(home) }
}

} // verus!
