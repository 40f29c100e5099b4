//! The texts of the simulation's event log.

use vstd::prelude::*;

verus! {

/// The text recorded when a trader beats off an ambush near `system`.
pub uninterp spec fn ambush_won_text(system: Seq<char>, trader: u64, engaged: u64, kills: u64, reward: i64) -> Seq<char>;

/// The text recorded when a trader is lost to an ambush near `system`.
pub uninterp spec fn ambush_lost_text(system: Seq<char>, trader: u64) -> Seq<char>;

/// The text recorded when a trader respawns at `system`.
pub uninterp spec fn respawn_text(trader: u64, system: Seq<char>) -> Seq<char>;

/// The text recorded when the navy engages pirates at `system`.
pub uninterp spec fn navy_engaged_text(system: Seq<char>, killed: u64) -> Seq<char>;

/// The suffix recorded when navy ships are lost in that engagement.
pub uninterp spec fn frigates_lost_text(lost: u64) -> Seq<char>;

/// `format!` of the ambush-won text: its result depends on its arguments only.
#[verifier::external_body]
pub(crate) fn ambush_won_message(system: &str, trader: u64, engaged: u64, kills: u64, reward: i64) -> (r: String)
    ensures
        r@ == ambush_won_text(system@, trader, engaged, kills, reward),
{
    format!("Ambush near {system}: trader #{trader} beat {engaged} pirate(s), killed {kills} (+{reward}cr)")
}

/// `format!` of the ambush-lost text: its result depends on its arguments only.
#[verifier::external_body]
pub(crate) fn ambush_lost_message(system: &str, trader: u64) -> (r: String)
    ensures
        r@ == ambush_lost_text(system@, trader),
{
    format!("Ambush near {system}: trader #{trader} destroyed, cargo lost")
}

/// `format!` of the respawn text: its result depends on its arguments only.
#[verifier::external_body]
pub(crate) fn respawn_message(trader: u64, system: &str) -> (r: String)
    ensures
        r@ == respawn_text(trader, system@),
{
    format!("Trader #{trader} respawned at {system}")
}

/// `format!` of the navy-engagement text: its result depends on its arguments only.
#[verifier::external_body]
pub(crate) fn navy_engaged_message(system: &str, killed: u64) -> (r: String)
    ensures
        r@ == navy_engaged_text(system@, killed),
{
    format!("Navy engaged pirates at {system}: {killed} destroyed")
}

/// `format!` of the navy-losses suffix: its result depends on its argument only.
#[verifier::external_body]
pub(crate) fn frigates_lost_message(lost: u64) -> (r: String)
    ensures
        r@ == frigates_lost_text(lost),
{
    format!(", {lost} frigate(s) lost")
}

} // verus!
