//! Claims on issues, held by agents for a bounded lease.

use vstd::prelude::*;
use crate::clock::current_unix_time;

verus! {

/// Length of a lease in seconds (ten minutes).
pub const DEFAULT_LEASE_SECONDS: u64 = 600;

/// The end of a lease taken at `now`: `now + DEFAULT_LEASE_SECONDS`, held at `u64::MAX`
/// where the sum would not fit.
pub open spec fn lease_end(now: u64) -> u64 {
    if now + DEFAULT_LEASE_SECONDS <= u64::MAX {
        (now + DEFAULT_LEASE_SECONDS) as u64
    } else {
        u64::MAX
    }
}

/// A claim on an issue by an agent.
#[derive(Debug, Clone)]
pub struct Claim {
    pub issue_id: String,
    pub agent_id: String,
    pub pid: u32,
    pub worktree: String,
    pub branch: String,
    pub claimed_at: u64,
    pub lease_until: u64,
}

/// How a claim looks to the agent that reads it.
#[derive(Debug, Clone, Copy, PartialEq, Eq, Structural)]
pub enum ClaimState {
    Unclaimed,
    ClaimedByMe,
    ClaimedByOther,
    Expired,
}

impl Claim {
    /// A claim taken at time `now` by process `pid`, leased for `DEFAULT_LEASE_SECONDS`.
    pub fn new_at(
        issue_id: String,
        agent_id: String,
        worktree: String,
        branch: String,
        pid: u32,
        now: u64,
    ) -> (c: Claim)
        ensures
            c.issue_id@ == issue_id@,
            c.agent_id@ == agent_id@,
            c.worktree@ == worktree@,
            c.branch@ == branch@,
            c.pid == pid,
            c.claimed_at == now,
            c.lease_until == lease_end(now),
    {
        Claim {
            issue_id,
            agent_id,
            pid,
            worktree,
            branch,
            claimed_at: now,
            lease_until: now.saturating_add(DEFAULT_LEASE_SECONDS),
        }
    }

    /// A claim taken now by process `pid`: the clock is read once, and the claim is the
    /// one `new_at` gives for that reading.
    pub fn new(issue_id: String, agent_id: String, worktree: String, branch: String, pid: u32) -> (c: Claim)
        ensures
            c.issue_id@ == issue_id@,
            c.agent_id@ == agent_id@,
            c.worktree@ == worktree@,
            c.branch@ == branch@,
            c.pid == pid,
            c.lease_until == lease_end(c.claimed_at),
    {
        let now = current_unix_time();
        Claim::new_at(issue_id, agent_id, worktree, branch, pid, now)
    }

    /// The claim has expired at time `now`: the lease ended before it.
    pub fn is_expired_at(&self, now: u64) -> (r: bool)
        ensures
            r == (now > self.lease_until),
    {
        now > self.lease_until
    }

    /// The claim is still held at time `now`.
    pub fn is_active_at(&self, now: u64) -> (r: bool)
        ensures
            r == !(now > self.lease_until),
    {
        !self.is_expired_at(now)
    }

    /// The claim has expired by the clock's current reading. A lease that ends at
    /// `u64::MAX` never expires.
    pub fn is_expired(&self) -> (r: bool)
        ensures
            exists|now: u64| r == #[trigger] lease_over(self.lease_until, now),
            self.lease_until == u64::MAX ==> !r,
    {
        let now = current_unix_time();
        let r = self.is_expired_at(now);
        assert(r == lease_over(self.lease_until, now));
        r
    }

    /// The claim is still held by the clock's current reading. A lease that ends at
    /// `u64::MAX` is always held.
    pub fn is_active(&self) -> (r: bool)
        ensures
            exists|now: u64| r == !#[trigger] lease_over(self.lease_until, now),
            self.lease_until == u64::MAX ==> r,
    {
        !self.is_expired()
    }

    /// Renews the lease from time `now`; nothing else changes.
    pub fn renew_at(&mut self, now: u64)
        ensures
            final(self).lease_until == lease_end(now),
            final(self).issue_id == old(self).issue_id,
            final(self).agent_id == old(self).agent_id,
            final(self).pid == old(self).pid,
            final(self).worktree == old(self).worktree,
            final(self).branch == old(self).branch,
            final(self).claimed_at == old(self).claimed_at,
    {
        self.lease_until = now.saturating_add(DEFAULT_LEASE_SECONDS);
    }

    /// Renews the lease from the clock's current reading; nothing but the lease's end
    /// changes, and that is the end of a lease taken at some reading of the clock.
    pub fn renew(&mut self)
        ensures
            exists|now: u64| final(self).lease_until == lease_end(now),
            final(self).issue_id == old(self).issue_id,
            final(self).agent_id == old(self).agent_id,
            final(self).pid == old(self).pid,
            final(self).worktree == old(self).worktree,
            final(self).branch == old(self).branch,
            final(self).claimed_at == old(self).claimed_at,
    {
        let now = current_unix_time();
        self.renew_at(now);
    }
}

/// A lease ending at `lease_until` is over at time `now`.
pub open spec fn lease_over(lease_until: u64, now: u64) -> bool {
    now > lease_until
}

/// A claim is active at the moment it is taken: its lease does not end before it starts.
pub proof fn lemma_fresh_claim_active(now: u64)
    ensures
        !(now > lease_end(now)),
{
}

} // verus!
