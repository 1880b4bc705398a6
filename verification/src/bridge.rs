//! Built-in pub/sub bridge nodes. A link whose upstream lives on another
//! daemon is fed by the pub/sub source: it subscribes to a key expression
//! derived from the link and forwards every received payload to the local
//! input port. A link whose downstream is remote is drained by the pub/sub
//! sink, which publishes under the same derived key expression, so the two
//! daemons of a cross link always meet on one key.

use vstd::prelude::*;
use crate::codec::{enc_u64, push_u64};
use crate::record::Link;

verus! {

/// `zf/`
pub open spec fn lit_key_prefix() -> Seq<u8> {
    seq![122u8, 102, 47]
}

/// `/`
pub open spec fn lit_slash() -> Seq<u8> {
    seq![47u8]
}

/// The key expression a cross-daemon link is bridged on:
/// `zf/<instance>/<to_node>/<to_port>`. Both daemons of the link derive it
/// from the link alone, so publisher and subscriber meet.
pub open spec fn key_expr_of(instance: u64, l: Link) -> Seq<u8> {
    lit_key_prefix() + enc_u64(instance) + lit_slash() + enc_u64(l.to_node) + lit_slash()
        + enc_u64(l.to_port)
}

/// Builds the key expression of one link.
pub fn make_key_expr(instance: u64, l: &Link) -> (out: Vec<u8>)
    ensures
        out@ == key_expr_of(instance, *l),
{
    let mut out: Vec<u8> = Vec::new();
    out.push(122);
    out.push(102);
    out.push(47);
    push_u64(&mut out, instance);
    out.push(47);
    push_u64(&mut out, l.to_node);
    out.push(47);
    push_u64(&mut out, l.to_port);
    proof {
        assert(out@ =~= key_expr_of(instance, *l));
    }
    out
}

/// One bridged link with its key expression.
pub struct SubEntry {
    pub link: Link,
    pub key_expr: Vec<u8>,
}

pub open spec fn entry_links(entries: Seq<SubEntry>) -> Seq<Link> {
    entries.map_values(|e: SubEntry| e.link)
}

/// The pub/sub source node of one instance: one subscriber per inbound
/// remote link, and the set of pending receives the iteration selects over.
pub struct ZenohSourceState {
    pub entries: Vec<SubEntry>,
    /// Whether the subscribers are currently declared on the transport.
    pub subscribed: bool,
    /// The links with an armed pending receive.
    pub pending: Vec<Link>,
}

impl ZenohSourceState {
    /// No duplicate pending receive is ever armed, and each belongs to a
    /// declared entry.
    pub open spec fn wf(self) -> bool {
        &&& forall|i: int, j: int|
            0 <= i < j < self.pending@.len() ==> (#[trigger] self.pending@[i]) != (
            #[trigger] self.pending@[j])
        &&& forall|i: int|
            0 <= i < self.pending@.len() ==> entry_links(self.entries@).contains(
                #[trigger] self.pending@[i],
            )
    }

    pub fn new(entries: Vec<SubEntry>) -> (s: ZenohSourceState)
        ensures
            s.wf(),
            s.entries == entries,
            !s.subscribed,
            s.pending@.len() == 0,
    {
        ZenohSourceState { entries, subscribed: false, pending: Vec::new() }
    }

    /// Declares one subscriber per entry. A pending receive is armed for
    /// every entry — unless pending receives survived an abort that raced
    /// the iteration's swap window, in which case the survivors are kept and
    /// no duplicates are pushed.
    pub fn on_resume(&mut self)
        requires
            old(self).wf(),
            forall|i: int, j: int|
                0 <= i < j < old(self).entries@.len() ==> (#[trigger] old(self).entries@[i]).link
                    != (#[trigger] old(self).entries@[j]).link,
        ensures
            final(self).wf(),
            final(self).entries == old(self).entries,
            final(self).subscribed,
            final(self).pending@ == if old(self).pending@.len() == 0 {
                entry_links(old(self).entries@)
            } else {
                old(self).pending@
            },
    {
        let pending_was_empty = self.pending.len() == 0;
        if pending_was_empty {
            let n = self.entries.len();
            let mut i: usize = 0;
            while i < n
                invariant
                    i <= n,
                    n == self.entries@.len(),
                    self.entries == old(self).entries,
                    self.subscribed == old(self).subscribed,
                    self.pending@ == entry_links(self.entries@).take(i as int),
                decreases n - i,
            {
                self.pending.push(self.entries[i].link);
                proof {
                    assert(self.pending@ =~= entry_links(self.entries@).take(i + 1));
                }
                i = i + 1;
            }
            proof {
                assert(entry_links(self.entries@).take(n as int) =~= entry_links(self.entries@));
            }
        }
        self.subscribed = true;
        proof {
            assert forall|i: int, j: int|
                0 <= i < j < self.pending@.len() implies (#[trigger] self.pending@[i]) != (
            #[trigger] self.pending@[j]) by {
                if self.pending@ == entry_links(old(self).entries@) {
                    assert(old(self).entries@[i].link != old(self).entries@[j].link);
                }
            }
            assert forall|i: int| 0 <= i < self.pending@.len() implies entry_links(
                self.entries@,
            ).contains(#[trigger] self.pending@[i]) by {
                if old(self).pending@.len() == 0 {
                    assert(self.pending@[i] == entry_links(self.entries@)[i]);
                }
            }
        }
    }

    /// Drops the subscribers, so nothing published while the node is
    /// inactive reaches it and other users of the key are not disturbed.
    /// Armed pending receives are left in place.
    pub fn on_abort(&mut self)
        requires
            old(self).wf(),
        ensures
            final(self).wf(),
            *final(self) == (ZenohSourceState { subscribed: false, ..*old(self) }),
    {
        self.subscribed = false;
    }

    /// One iteration: the select over the pending receives completed for
    /// `completed` with `sample`. The payload is forwarded to the port of
    /// that link and a fresh receive is armed on the same link, so the
    /// pending set is unchanged; a failed receive is only reported.
    pub fn iteration(&mut self, completed: Link, sample: Option<Vec<u8>>) -> (action: Option<
        (Link, Vec<u8>),
    >)
        requires
            old(self).wf(),
            old(self).subscribed,
            entry_links(old(self).entries@).contains(completed),
        ensures
            final(self).wf(),
            *final(self) == *old(self),
            match sample {
                Some(payload) => action == Some((completed, payload)),
                None => action is None,
            },
    {
        match sample {
            Some(payload) => Some((completed, payload)),
            None => None,
        }
    }
}

/// The pub/sub sink node of one instance: one publisher per outbound remote
/// link.
pub struct ZenohSinkState {
    pub entries: Vec<SubEntry>,
    /// Whether the publishers are currently declared on the transport.
    pub publishing: bool,
}

impl ZenohSinkState {
    pub fn new(entries: Vec<SubEntry>) -> (s: ZenohSinkState)
        ensures
            s.entries == entries,
            !s.publishing,
    {
        ZenohSinkState { entries, publishing: false }
    }

    /// Declares one publisher per entry.
    pub fn on_resume(&mut self)
        ensures
            *final(self) == (ZenohSinkState { publishing: true, ..*old(self) }),
    {
        self.publishing = true;
    }

    /// Drops the publishers.
    pub fn on_abort(&mut self)
        ensures
            *final(self) == (ZenohSinkState { publishing: false, ..*old(self) }),
    {
        self.publishing = false;
    }

    /// One iteration: a payload read from the input channel of `link` is
    /// published under that link's key expression. The publish action hands
    /// the payload on untouched; at most one message per port is in flight,
    /// back-pressure on the channel is the rate limiter.
    pub fn iteration(&mut self, link: Link, payload: Vec<u8>) -> (action: Option<(usize, Vec<u8>)>)
        requires
            old(self).publishing,
        ensures
            *final(self) == *old(self),
            match action {
                Some((k, p)) => 0 <= k < old(self).entries@.len() && old(
                    self,
                ).entries@[k as int].link == link && p == payload,
                None => forall|k: int|
                    0 <= k < old(self).entries@.len() ==> (#[trigger] old(
                        self,
                    ).entries@[k]).link != link,
            },
    {
        let n = self.entries.len();
        let mut i: usize = 0;
        while i < n
            invariant
                i <= n,
                n == self.entries@.len(),
                forall|k: int| 0 <= k < i ==> (#[trigger] self.entries@[k]).link != link,
        decreases n - i,
        {
            if self.entries[i].link == link {
                return Some((i, payload));
            }
            i = i + 1;
        }
        None
    }
}

} // verus!
