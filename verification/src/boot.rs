//! What the controller does after power-up.

use vstd::prelude::*;

use crate::config::Config;

verus! {

/// How often the modifiers are polled at boot, 100 ms apart.
pub const BOOT_POLLS: u8 = 20;

/// Whether setup is forced at boot.
#[derive(Debug, Clone, Copy, PartialEq, Eq, Structural)]
pub enum Hold {
    /// Shift and Control were held: go to setup.
    Forced,
    /// Poll again.
    Again,
    /// They were not held in any poll.
    Released,
}

/// What one poll of the modifiers, the `done`-th counted from 1, decides.
pub open spec fn poll_decides(done: u8, held: bool) -> Hold {
    if held {
        Hold::Forced
    } else if done < BOOT_POLLS {
        Hold::Again
    } else {
        Hold::Released
    }
}

/// What one poll of the modifiers, the `done`-th counted from 1, decides.
pub fn boot_poll(done: u8, held: bool) -> (r: Hold)
    ensures
        r == poll_decides(done, held),
        r == if held {
            Hold::Forced
        } else if done < BOOT_POLLS {
            Hold::Again
        } else {
            Hold::Released
        },
{
    if held {
        Hold::Forced
    } else if done < BOOT_POLLS {
        Hold::Again
    } else {
        Hold::Released
    }
}

/// What to do at boot.
#[derive(Debug, PartialEq, Eq)]
pub enum Boot {
    /// Open the setup portal.
    Portal,
    /// Join this network.
    Join(Config),
}

/// What to do at boot, forced into setup or not, with what is configured.
pub open spec fn boot_choice(forced: bool, config: Option<Config>) -> Boot {
    match config {
        Some(c) => if forced {
            Boot::Portal
        } else {
            Boot::Join(c)
        },
        None => Boot::Portal,
    }
}

/// Setup is for a forced one and for a controller without a configuration.
pub fn boot(forced: bool, config: Option<Config>) -> (r: Boot)
    ensures
        r == boot_choice(forced, config),
        r == match config {
            Some(c) => if forced {
                Boot::Portal
            } else {
                Boot::Join(c)
            },
            None => Boot::Portal,
        },
{
    match config {
        Some(c) => {
            if forced {
                Boot::Portal
            } else {
                Boot::Join(c)
            }
        },
        None => Boot::Portal,
    }
}

/// What follows the attempt to join.
#[derive(Debug, Clone, Copy, PartialEq, Eq, Structural)]
pub enum Running {
    /// Run the OSC engine.
    Engine,
    /// Open the setup portal.
    Portal,
}

/// What to run once joining worked or not.
pub open spec fn join_leads_to(joined: bool) -> Running {
    if joined {
        Running::Engine
    } else {
        Running::Portal
    }
}

/// A network that cannot be joined leads back to setup.
pub fn after_join(joined: bool) -> (r: Running)
    ensures
        r == join_leads_to(joined),
        r == if joined {
            Running::Engine
        } else {
            Running::Portal
        },
{
    if joined {
        Running::Engine
    } else {
        Running::Portal
    }
}

/// How the polls at boot end: forced by the first one with the modifiers held.
pub open spec fn polls_end(held: Seq<bool>, done: u8) -> Option<bool>
    decreases held.len(),
{
    if held.len() == 0 {
        None
    } else {
        match poll_decides(done, held[0]) {
            Hold::Forced => Some(true),
            Hold::Released => Some(false),
            Hold::Again => if done < 255 {
                polls_end(held.skip(1), (done + 1) as u8)
            } else {
                None
            },
        }
    }
}

/// Setup is forced exactly if the modifiers are held in one of the twenty
/// polls, whichever it is.
pub proof fn law_any_held_poll_forces_setup(held: Seq<bool>, done: u8)
    requires
        1 <= done <= 20,
        held.len() == 21 - done,
    ensures
        polls_end(held, done) == Some(
            exists|i: int| 0 <= i < held.len() && #[trigger] held[i],
        ),
    decreases held.len(),
{
    if held[0] {
        assert(held[0]);
    } else if done < 20 {
        let rest = held.skip(1);
        law_any_held_poll_forces_setup(rest, (done + 1) as u8);
        if exists|i: int| 0 <= i < held.len() && #[trigger] held[i] {
            let i = choose|i: int| 0 <= i < held.len() && #[trigger] held[i];
            assert(rest[i - 1]);
        }
        if exists|i: int| 0 <= i < rest.len() && #[trigger] rest[i] {
            let i = choose|i: int| 0 <= i < rest.len() && #[trigger] rest[i];
            assert(held[i + 1]);
        }
    }
}

/// The controller runs exactly if it is configured, setup is not forced and its
/// network can be joined, and it joins the network it is configured for. In
/// every other case it opens the portal.
pub proof fn law_portal_unless_joined(forced: bool, config: Option<Config>, joined: bool)
    ensures
        boot_choice(forced, config) matches Boot::Join(c) ==> config == Some(c) && !forced,
        boot_choice(forced, config) is Portal <==> forced || config is None,
        join_leads_to(joined) == Running::Engine <==> joined,
{
}

} // verus!
