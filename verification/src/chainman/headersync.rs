//! What the header sync does with each payload a peer sends.
use vstd::prelude::*;
use super::chain::{Chain, PROTOCOL_VERSION, need_ihd, spec_has};
use crate::packets::getheaders::GetHeadersOwned;
use crate::packets::payload::{PayloadToSend, ReceivedPayload};
use crate::util::merkle::spec_hashes_view;

verus! {

/// Takes one payload during the header sync. A `headers` payload is
/// applied: an empty one, or one that does not apply, ends the exchange
/// with this peer. After a batch that applies the deadline is reset, and
/// while the tip is still more than a day older than `now` the next batch
/// is asked for, starting after the batch's last header; otherwise the
/// exchange ends. Other payloads are ignored.
pub fn handle_packet_during_headersync(
    packet: &ReceivedPayload<'_>,
    chain: &mut Chain,
    now: u64,
    need_break: &mut bool,
    reset_deadline: &mut bool,
) -> (r: Option<Vec<PayloadToSend>>)
    requires
        old(chain).wf(),
    ensures
        final(chain).wf(),
        old(chain).known().is_prefix_of(final(chain).known()),
        match *packet {
            ReceivedPayload::Headers(h) => {
                let valid = h.inner@.len() > 0;
                &&& !valid ==> r is None && *final(need_break) && *final(reset_deadline) == *old(reset_deadline)
                    && final(chain).known() == old(chain).known() && final(chain).top_header == old(chain).top_header
                &&& valid ==> if forall|i: int| 0 <= i < h.inner@.len() ==> spec_has(final(chain).known(), (#[trigger] h.inner@[i]).hash@) {
                    &&& *final(reset_deadline)
                    &&& if now as int - final(chain).top_header.header.timestamp as int > 24 * 3600 {
                        &&& *final(need_break) == *old(need_break)
                        &&& r matches Some(out) && out@.len() == 1 && (out@[0] matches PayloadToSend::GetHeaders(g)
                            && g.version == PROTOCOL_VERSION
                            && spec_hashes_view(g.block_locator@) == seq![h.inner@.last().hash@]
                            && g.hash_stop@ == Seq::new(32, |i: int| 0u8))
                    } else {
                        r is None && *final(need_break)
                    }
                } else {
                    r is None && *final(need_break) && *final(reset_deadline) == *old(reset_deadline)
                }
            },
            _ => r is None && *final(need_break) == *old(need_break) && *final(reset_deadline) == *old(reset_deadline)
                && final(chain).known() == old(chain).known(),
        },
{
    match packet {
        ReceivedPayload::Headers(headers) => {
            if headers.inner.len() == 0 {
                *need_break = true;
                return None;
            }
            if chain.validate_and_apply_headers(headers.inner.as_slice()).is_err() {
                *need_break = true;
                return None;
            }
            *reset_deadline = true;
            if need_ihd(chain, now) {
                proof {
                    vstd::array::axiom_spec_array_fill_for_copy_type::<u8, 32>(0u8);
                }
                let hash_stop = [0u8; 32];
                assert(hash_stop@ =~= Seq::new(32, |i: int| 0u8));
                let last = headers.inner[headers.inner.len() - 1].hash;
                let mut block_locator: Vec<[u8; 32]> = Vec::new();
                block_locator.push(last);
                assert(spec_hashes_view(block_locator@) =~= seq![headers.inner@.last().hash@]);
                let mut out: Vec<PayloadToSend> = Vec::new();
                out.push(PayloadToSend::GetHeaders(GetHeadersOwned { version: PROTOCOL_VERSION, block_locator, hash_stop }));
                return Some(out);
            } else {
                *need_break = true;
                return None;
            }
        },
        _ => {},
    }
    None
}

} // verus!
