//! The first-run Wi-Fi flow: the kiosk opens a hotspot, a phone submits the
//! home network, the kiosk joins it and checks the internet, then moves on
//! to Spotify pairing — or reopens the hotspot and waits for another try.
//! The caller performs each action in order and reports the outcomes.
use vstd::prelude::*;

verus! {

/// Where the flow stands.
#[derive(Clone, Copy, Debug, PartialEq, Eq, Structural)]
pub enum OobePhase {
    /// The hotspot is up; waiting for a network from the setup page.
    Waiting,
    /// Joining the submitted network.
    Joining,
    /// Joined; checking that the internet is reachable.
    Verifying,
    /// Online; pairing has started.
    Paired,
}

/// One step for the caller to perform.
#[derive(Clone, Copy, Debug, PartialEq, Eq, Structural)]
pub enum OobeAction {
    /// Show "Starting hotspot…" with the setup QR code.
    ShowStarting,
    /// Bring the setup hotspot up.
    StartHotspot,
    /// Take the setup hotspot down.
    StopHotspot,
    /// Wait this many seconds.
    Pause(u64),
    /// Show that the hotspot is up and the QR code can be scanned.
    ShowHotspotActive,
    /// Serve the setup page.
    ServeSetupPage,
    /// Show "Connecting to <network>…".
    ShowConnecting,
    /// Join the submitted network.
    Join,
    /// Check that the internet is reachable.
    CheckInternet,
    /// Show that the kiosk is online and Spotify comes next.
    ShowConnected,
    /// Start Spotify pairing.
    StartPairing,
    /// Show that the connection failed and another try is possible.
    ShowFailed,
}

/// The flow's start: the steps that bring the hotspot and setup page up.
pub open spec fn opening_actions() -> Seq<OobeAction> {
    seq![
        OobeAction::ShowStarting,
        OobeAction::StartHotspot,
        OobeAction::Pause(2),
        OobeAction::ShowHotspotActive,
        OobeAction::ServeSetupPage,
    ]
}

/// After a failed attempt: the hotspot comes back and the failure is shown.
pub open spec fn retry_actions() -> Seq<OobeAction> {
    seq![OobeAction::StartHotspot, OobeAction::Pause(2), OobeAction::ShowFailed]
}

/// A network was submitted: while waiting, the kiosk takes the hotspot
/// down and joins it; otherwise the submission waits its turn.
pub open spec fn after_submit(p: OobePhase) -> (OobePhase, Seq<OobeAction>) {
    if p == OobePhase::Waiting {
        (
            OobePhase::Joining,
            seq![OobeAction::ShowConnecting, OobeAction::StopHotspot, OobeAction::Pause(1), OobeAction::Join],
        )
    } else {
        (p, Seq::empty())
    }
}

/// The join finished: on success the internet is checked after three
/// seconds, on failure the hotspot comes back.
pub open spec fn after_join(p: OobePhase, joined: bool) -> (OobePhase, Seq<OobeAction>) {
    if p != OobePhase::Joining {
        (p, Seq::empty())
    } else if joined {
        (OobePhase::Verifying, seq![OobeAction::Pause(3), OobeAction::CheckInternet])
    } else {
        (OobePhase::Waiting, retry_actions())
    }
}

/// The internet check finished: online, pairing starts; offline, the
/// hotspot comes back.
pub open spec fn after_check(p: OobePhase, online: bool) -> (OobePhase, Seq<OobeAction>) {
    if p != OobePhase::Verifying {
        (p, Seq::empty())
    } else if online {
        (OobePhase::Paired, seq![OobeAction::ShowConnected, OobeAction::Pause(1), OobeAction::StartPairing])
    } else {
        (OobePhase::Waiting, retry_actions())
    }
}

/// The first-run Wi-Fi flow.
pub struct OobeFlow {
    pub phase: OobePhase,
}

impl OobeFlow {
    /// Starts the flow: returns it waiting for a network, with the steps
    /// that open the hotspot and the setup page.
    pub fn begin() -> (r: (OobeFlow, Vec<OobeAction>))
        ensures
            r.0.phase == OobePhase::Waiting,
            r.1@ == opening_actions(),
    {
        let actions = vec![
            OobeAction::ShowStarting,
            OobeAction::StartHotspot,
            OobeAction::Pause(2),
            OobeAction::ShowHotspotActive,
            OobeAction::ServeSetupPage,
        ];
        assert(actions@ =~= opening_actions());
        (OobeFlow { phase: OobePhase::Waiting }, actions)
    }

    /// A network was submitted from the setup page.
    pub fn network_submitted(&mut self) -> (actions: Vec<OobeAction>)
        ensures
            (final(self).phase, actions@) == after_submit(old(self).phase),
    {
        if self.phase == OobePhase::Waiting {
            self.phase = OobePhase::Joining;
            let a = vec![OobeAction::ShowConnecting, OobeAction::StopHotspot, OobeAction::Pause(1), OobeAction::Join];
            assert(a@ =~= seq![
                OobeAction::ShowConnecting,
                OobeAction::StopHotspot,
                OobeAction::Pause(1),
                OobeAction::Join,
            ]);
            a
        } else {
            let a: Vec<OobeAction> = Vec::new();
            assert(a@ =~= Seq::<OobeAction>::empty());
            a
        }
    }

    /// The join attempt finished.
    pub fn join_finished(&mut self, joined: bool) -> (actions: Vec<OobeAction>)
        ensures
            (final(self).phase, actions@) == after_join(old(self).phase, joined),
    {
        if self.phase != OobePhase::Joining {
            let a: Vec<OobeAction> = Vec::new();
            assert(a@ =~= Seq::<OobeAction>::empty());
            a
        } else if joined {
            self.phase = OobePhase::Verifying;
            let a = vec![OobeAction::Pause(3), OobeAction::CheckInternet];
            assert(a@ =~= seq![OobeAction::Pause(3), OobeAction::CheckInternet]);
            a
        } else {
            self.phase = OobePhase::Waiting;
            let a = vec![OobeAction::StartHotspot, OobeAction::Pause(2), OobeAction::ShowFailed];
            assert(a@ =~= retry_actions());
            a
        }
    }

    /// The internet check finished.
    pub fn check_finished(&mut self, online: bool) -> (actions: Vec<OobeAction>)
        ensures
            (final(self).phase, actions@) == after_check(old(self).phase, online),
    {
        if self.phase != OobePhase::Verifying {
            let a: Vec<OobeAction> = Vec::new();
            assert(a@ =~= Seq::<OobeAction>::empty());
            a
        } else if online {
            self.phase = OobePhase::Paired;
            let a = vec![OobeAction::ShowConnected, OobeAction::Pause(1), OobeAction::StartPairing];
            assert(a@ =~= seq![OobeAction::ShowConnected, OobeAction::Pause(1), OobeAction::StartPairing]);
            a
        } else {
            self.phase = OobePhase::Waiting;
            let a = vec![OobeAction::StartHotspot, OobeAction::Pause(2), OobeAction::ShowFailed];
            assert(a@ =~= retry_actions());
            a
        }
    }
}

/// Pairing starts only once the kiosk has joined the network and found the
/// internet: the check that starts it runs only after a successful join,
/// and only an online result starts it.
pub proof fn law_pairing_needs_internet(p: OobePhase, joined: bool, online: bool)
    ensures
        p != OobePhase::Verifying ==> (after_join(p, joined).0 == OobePhase::Verifying <==> (p
            == OobePhase::Joining && joined)),
        after_check(p, online).1.contains(OobeAction::StartPairing) <==> (p == OobePhase::Verifying
            && online),
        !after_submit(p).1.contains(OobeAction::StartPairing),
        !after_join(p, joined).1.contains(OobeAction::StartPairing),
{
    let s = after_check(p, online).1;
    if p == OobePhase::Verifying && online {
        assert(s[2] == OobeAction::StartPairing);
    }
    if s.contains(OobeAction::StartPairing) {
        let k = choose|k: int| 0 <= k < s.len() && s[k] == OobeAction::StartPairing;
        assert(s[k] == OobeAction::StartPairing);
    }
    let a = after_submit(p).1;
    if a.contains(OobeAction::StartPairing) {
        let k = choose|k: int| 0 <= k < a.len() && a[k] == OobeAction::StartPairing;
        assert(a[k] == OobeAction::StartPairing);
    }
    let b = after_join(p, joined).1;
    if b.contains(OobeAction::StartPairing) {
        let k = choose|k: int| 0 <= k < b.len() && b[k] == OobeAction::StartPairing;
        assert(b[k] == OobeAction::StartPairing);
    }
}

/// A failed join or an offline check always brings the hotspot back and
/// waits for another network.
pub proof fn law_failure_reopens_hotspot(p: OobePhase)
    ensures
        p == OobePhase::Joining ==> after_join(p, false) == (OobePhase::Waiting, retry_actions()),
        p == OobePhase::Verifying ==> after_check(p, false) == (OobePhase::Waiting, retry_actions()),
        retry_actions()[0] == OobeAction::StartHotspot,
{
}

} // verus!
