//! What one run does with the confidences of its images: the annotated
//! reply and its temporary files, or the moderation step with its mute.
use crate::codec::{
    argmax, decode_detections, decode_row, decoded, lemma_argmax_in_range, max_target_score,
    row_kept, rows_ok, single_class, Detection, Label, RawRow,
};
use crate::composite::{
    drawn_max_confidence, lemma_drawn_max_lower, lemma_drawn_max_upper, plan_strokes, strokes_of,
    Stroke,
};
use crate::moderation::{count_in, escalates, last_in, ModerationTable};
use crate::nms::{suppress, suppressed};
use vstd::prelude::*;

verus! {

/// Seconds between the reply and deleting the offending message.
pub const DELETE_DELAY_SECS: u64 = 1;

/// Extra seconds the host gets to send attached files before they are removed.
pub const ARTIFACT_GRACE_SECS: u64 = 10;

/// The numeric part of the configuration.
#[derive(Clone, Copy, Debug, PartialEq, Eq, Structural)]
pub struct Policy {
    /// Confidence (parts per million) at which an image counts.
    pub trigger: u32,
    /// Whether replies quote each counted confidence.
    pub is_reply_trigger: bool,
    /// Whether the offending message is deleted after the reply.
    pub is_delete_message: bool,
    /// Seconds within which a repeat trigger in a group escalates.
    pub ban_cooldown: u64,
    /// Seconds a user is muted on escalation.
    pub ban_duration: u64,
}

impl Default for Policy {
    fn default() -> (r: Policy)
        ensures
            r == (Policy {
                trigger: 780000,
                is_reply_trigger: true,
                is_delete_message: true,
                ban_cooldown: 60,
                ban_duration: 60,
            }),
    {
        Policy {
            trigger: 780000,
            is_reply_trigger: true,
            is_delete_message: true,
            ban_cooldown: 60,
            ban_duration: 60,
        }
    }
}

/// The confidences that reach the trigger, in image order.
pub open spec fn counted(probs: Seq<u32>, trigger: u32) -> Seq<u32>
    decreases probs.len(),
{
    if probs.len() == 0 {
        Seq::empty()
    } else {
        let prev = counted(probs.drop_last(), trigger);
        if probs.last() >= trigger {
            prev.push(probs.last())
        } else {
            prev
        }
    }
}

/// 1-based positions of the images whose confidence reaches the trigger.
pub open spec fn counted_positions(probs: Seq<u32>, trigger: u32) -> Seq<usize>
    decreases probs.len(),
{
    if probs.len() == 0 {
        Seq::empty()
    } else {
        let prev = counted_positions(probs.drop_last(), trigger);
        if probs.last() >= trigger {
            prev.push(probs.len() as usize)
        } else {
            prev
        }
    }
}

proof fn lemma_counted_same_len(probs: Seq<u32>, trigger: u32)
    ensures
        counted(probs, trigger).len() == counted_positions(probs, trigger).len(),
        counted(probs, trigger).len() <= probs.len(),
    decreases probs.len(),
{
    if probs.len() > 0 {
        lemma_counted_same_len(probs.drop_last(), trigger);
    }
}

/// The confidences that reach the trigger and their 1-based positions.
pub fn select_counted(probs: &Vec<u32>, trigger: u32) -> (r: (Vec<u32>, Vec<usize>))
    ensures
        r.0@ == counted(probs@, trigger),
        r.1@ == counted_positions(probs@, trigger),
{
    let mut vals: Vec<u32> = Vec::new();
    let mut pos: Vec<usize> = Vec::new();
    let mut i: usize = 0;
    while i < probs.len()
        invariant
            i <= probs.len(),
            vals@ == counted(probs@.subrange(0, i as int), trigger),
            pos@ == counted_positions(probs@.subrange(0, i as int), trigger),
        decreases probs.len() - i,
    {
        let ghost next = probs@.subrange(0, i + 1);
        assert(next.drop_last() =~= probs@.subrange(0, i as int));
        assert(next.last() == probs@[i as int]);
        if probs[i] >= trigger {
            vals.push(probs[i]);
            pos.push(i + 1);
        }
        i = i + 1;
    }
    assert(probs@.subrange(0, probs.len() as int) =~= probs@);
    (vals, pos)
}

/// What an on-demand run does. It has no mute and takes no moderation
/// table: the on-demand path never escalates and never counts a trigger.
pub struct AnnotatedPlan {
    /// 1-based positions of the images whose composite is saved and attached.
    pub saved: Vec<usize>,
    /// Confidences quoted in the reply, in image order.
    pub quoted: Vec<u32>,
    /// Whether a reply is sent at all.
    pub reply: bool,
    /// Whether the offending message is deleted after the reply.
    pub delete_message: bool,
    /// Seconds after the reply at which the run's files are removed; zero
    /// means at once, with no reply.
    pub cleanup_after_secs: u64,
}

/// Plans an on-demand run from each image's drawn maximum confidence: only
/// images at or above the trigger get a file; with none, nothing is sent and
/// cleanup is immediate; else the files outlive the reply by the delete delay
/// and the grace period.
pub fn plan_annotated(probs: &Vec<u32>, policy: &Policy) -> (r: AnnotatedPlan)
    ensures
        r.saved@ == counted_positions(probs@, policy.trigger),
        r.quoted@ == (if policy.is_reply_trigger {
            counted(probs@, policy.trigger)
        } else {
            Seq::empty()
        }),
        r.reply == (counted(probs@, policy.trigger).len() > 0),
        r.delete_message == (r.reply && policy.is_delete_message),
        r.cleanup_after_secs == (if r.reply {
            DELETE_DELAY_SECS + ARTIFACT_GRACE_SECS
        } else {
            0
        }),
        !r.reply ==> r.saved@.len() == 0,
{
    let (vals, pos) = select_counted(probs, policy.trigger);
    proof {
        lemma_counted_same_len(probs@, policy.trigger);
    }
    let reply = vals.len() > 0;
    let quoted = if policy.is_reply_trigger {
        vals
    } else {
        Vec::new()
    };
    AnnotatedPlan {
        saved: pos,
        quoted,
        reply,
        delete_message: reply && policy.is_delete_message,
        cleanup_after_secs: if reply {
            DELETE_DELAY_SECS + ARTIFACT_GRACE_SECS
        } else {
            0
        },
    }
}

/// What an auto-moderation run does.
pub struct AutoOutcome {
    /// Whether the standard reply is sent.
    pub reply: bool,
    /// Confidences quoted in the reply, in image order.
    pub quoted: Vec<u32>,
    /// Seconds to mute the user for, with the ban message, on escalation.
    pub mute_secs: Option<u64>,
    /// Whether the offending message is deleted after the reply.
    pub delete_message: bool,
}

/// Last trigger time of `user_id` in `group_id`, zero for a user or group
/// never seen.
pub open spec fn last_trigger(table: ModerationTable, user_id: i64, group_id: i64) -> int {
    if table.users@.contains_key(user_id) {
        last_in(table.users@[user_id].last_timestamp@, group_id)
    } else {
        0
    }
}

/// Per-group counts of `user_id`, empty for a user never seen.
pub open spec fn group_counts(table: ModerationTable, user_id: i64) -> Map<i64, u64> {
    if table.users@.contains_key(user_id) {
        table.users@[user_id].group_total_times@
    } else {
        Map::empty()
    }
}

/// Per-group last trigger times of `user_id`, empty for a user never seen.
pub open spec fn last_times(table: ModerationTable, user_id: i64) -> Map<i64, u64> {
    if table.users@.contains_key(user_id) {
        table.users@[user_id].last_timestamp@
    } else {
        Map::empty()
    }
}

/// An auto-moderation run by `user_id` in `group_id` at `now`, from each
/// image's maximum confidence. With no image at the trigger nothing happens
/// and the table is untouched. Otherwise the trigger is recorded as one
/// step, the user is muted when it escalates, and the reply is sent.
pub fn auto_moderate(
    table: &mut ModerationTable,
    user_id: i64,
    group_id: i64,
    now: u64,
    probs: &Vec<u32>,
    policy: &Policy,
) -> (r: AutoOutcome)
    requires
        old(table).wf(),
        old(table).users@.contains_key(user_id) ==> old(table).users@[user_id].total_times
            < u64::MAX,
    ensures
        final(table).wf(),
        r.reply == (counted(probs@, policy.trigger).len() > 0),
        !r.reply ==> final(table).users@ == old(table).users@,
        r.reply ==> final(table).users@.contains_key(user_id),
        r.reply ==> final(table).users@[user_id].total_times == (if old(
            table,
        ).users@.contains_key(user_id) {
            old(table).users@[user_id].total_times as int
        } else {
            0
        }) + 1,
        r.reply ==> final(table).users@[user_id].last_timestamp@ == last_times(
            *old(table),
            user_id,
        ).insert(group_id, now),
        r.reply ==> final(table).users@[user_id].group_total_times@ == group_counts(
            *old(table),
            user_id,
        ).insert(group_id, (count_in(group_counts(*old(table), user_id), group_id) + 1) as u64),
        forall|u: i64|
            u != user_id && #[trigger] old(table).users@.contains_key(u) ==> final(table).users@[u]
                == old(table).users@[u],
        r.mute_secs == (if r.reply && escalates(
            last_trigger(*old(table), user_id, group_id),
            now,
            policy.ban_cooldown,
        ) {
            Some(policy.ban_duration)
        } else {
            None
        }),
        r.quoted@ == (if r.reply && policy.is_reply_trigger {
            counted(probs@, policy.trigger)
        } else {
            Seq::empty()
        }),
        r.delete_message == (r.reply && policy.is_delete_message),
{
    let (vals, _pos) = select_counted(probs, policy.trigger);
    if vals.len() == 0 {
        return AutoOutcome { reply: false, quoted: Vec::new(), mute_secs: None, delete_message: false };
    }
    let escalate = table.record_trigger(user_id, group_id, now, policy.ban_cooldown);
    let quoted = if policy.is_reply_trigger {
        vals
    } else {
        Vec::new()
    };
    AutoOutcome {
        reply: true,
        quoted,
        mute_secs: if escalate {
            Some(policy.ban_duration)
        } else {
            None
        },
        delete_message: policy.is_delete_message,
    }
}

/// Final detections of one image: decoded rows, then suppression.
pub fn detect(rows: &Vec<RawRow>, width: u32, height: u32, labels: &Vec<Label>) -> (r: Vec<
    Detection,
>)
    requires
        rows_ok(rows@, labels@),
    ensures
        r@ == suppressed(decoded(rows@, width, height, labels@)),
{
    let cands = decode_detections(rows, width, height, labels);
    suppress(&cands)
}

/// With a single class, the maximum that mode B reads from the rows is the
/// drawn maximum over the decoded candidates, and they are all of that class.
proof fn lemma_target_score_is_decoded_max(
    rows: Seq<RawRow>,
    width: u32,
    height: u32,
    labels: Seq<Label>,
)
    requires
        rows_ok(rows, labels),
        single_class(labels),
    ensures
        max_target_score(rows, labels) == drawn_max_confidence(decoded(rows, width, height, labels)),
        forall|i: int|
            0 <= i < decoded(rows, width, height, labels).len() ==> (#[trigger] decoded(
                rows,
                width,
                height,
                labels,
            )[i]).label == Label::Nailong,
    decreases rows.len(),
{
    if rows.len() > 0 {
        let pre = rows.drop_last();
        assert forall|i: int| 0 <= i < pre.len() implies 1 <= #[trigger] pre[i].scores@.len()
            <= labels.len() by {
            assert(pre[i] == rows[i]);
        }
        lemma_target_score_is_decoded_max(pre, width, height, labels);
        let r = rows.last();
        assert(1 <= rows[rows.len() - 1].scores@.len() <= labels.len());
        lemma_argmax_in_range(r.scores@);
        assert(labels[argmax(r.scores@)] == Label::Nailong);
        let d = decoded(pre, width, height, labels);
        if row_kept(r) {
            let n = d.push(decode_row(r, width, height, labels));
            assert forall|i: int| 0 <= i < n.len() implies (#[trigger] n[i]).label == Label::Nailong by {
                if i < d.len() {
                    assert(n[i] == d[i]);
                }
            }
            assert(n.drop_last() =~= d);
        }
    }
}

/// Outlines for the audit image of one image, and the highest confidence
/// among them: decoding, suppression, then the drawing plan. With a single
/// class that confidence is the one the auto-moderation path reads from the
/// same rows.
pub fn annotate(rows: &Vec<RawRow>, width: u32, height: u32, labels: &Vec<Label>) -> (r: (
    Vec<Stroke>,
    u32,
))
    requires
        rows_ok(rows@, labels@),
    ensures
        r.0@ == strokes_of(suppressed(decoded(rows@, width, height, labels@))),
        r.1 == drawn_max_confidence(suppressed(decoded(rows@, width, height, labels@))),
        single_class(labels@) ==> r.1 == max_target_score(rows@, labels@),
{
    let cands = decode_detections(rows, width, height, labels);
    let dets = suppress(&cands);
    proof {
        if single_class(labels@) {
            lemma_target_score_is_decoded_max(rows@, width, height, labels@);
            if cands.len() > 0 {
                assert forall|i: int| 0 <= i < dets.len() implies (#[trigger] dets[i]).label
                    == Label::Nailong by {
                    let w = choose|w: int| 0 <= w < cands.len() && cands[w] == dets[i];
                    assert(cands@.contains(dets[i]));
                }
                assert forall|i: int| 0 <= i < dets.len() implies (#[trigger] dets[i]).confidence
                    <= dets[0].confidence by {
                    if i > 0 {
                        assert(dets[0].confidence >= dets[i].confidence);
                    }
                }
                lemma_drawn_max_lower(dets@);
                lemma_drawn_max_upper(dets@, dets[0].confidence);
                lemma_drawn_max_lower(cands@);
                lemma_drawn_max_upper(cands@, dets[0].confidence);
                assert(cands@.contains(dets[0]));
            } else {
                assert(dets.len() == 0);
                assert(dets@ =~= Seq::<Detection>::empty());
                assert(cands@ =~= Seq::<Detection>::empty());
            }
        }
    }
    plan_strokes(&dets)
}

} // verus!
