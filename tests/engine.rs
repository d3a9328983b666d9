use nailong::codec::{
    best_class, decode_detections, encode_planar, max_target_confidence, model_tensor, DetectError,
    Detection,
    Label, RawRow,
};
use nailong::composite::{color_for, merge_overlay, plan_strokes, Color};
use nailong::dispatch::{apply_admin_command, is_command, route_message, Route};
use nailong::enforcement::{annotate, auto_moderate, detect, plan_annotated, Policy};
use nailong::geometry::{area, intersection, iou_ratio, iou_below_threshold, union, BoundingBox};
use nailong::moderation::{ModerationTable, UserInfo, Whitelist};
use nailong::nms::{sort_detections, suppress};

fn bx(x1: i64, y1: i64, x2: i64, y2: i64) -> BoundingBox {
    BoundingBox { x1, y1, x2, y2 }
}

fn det(b: BoundingBox, label: Label, confidence: u32) -> Detection {
    Detection { bbox: b, label, confidence }
}

fn row(cx: i32, cy: i32, w: i32, h: i32, scores: Vec<u32>) -> RawRow {
    RawRow { cx, cy, w, h, scores }
}

#[test]
fn box_overlaps_itself_entirely() {
    let b = bx(10, 20, 110, 70);
    assert_eq!(area(&b), 5000);
    assert_eq!(intersection(&b, &b), area(&b));
    assert_eq!(union(&b, &b), area(&b));
    assert!(!iou_below_threshold(&b, &b));
}

#[test]
fn degenerate_boxes_have_zero_iou() {
    let flat = bx(5, 5, 5, 50);
    let other = bx(0, 0, 100, 100);
    assert_eq!(area(&flat), 0);
    assert_eq!(iou_ratio(&flat, &other), (0, 10000));
    assert_eq!(iou_ratio(&flat, &flat), (0, 1));
    assert!(iou_below_threshold(&flat, &flat));
}

#[test]
fn disjoint_and_inverted_overlap_is_clamped() {
    let a = bx(0, 0, 10, 10);
    let b = bx(20, 20, 30, 30);
    assert_eq!(intersection(&a, &b), 0);
    assert_eq!(union(&a, &b), 200);
    let inverted = bx(10, 10, 0, 0);
    assert_eq!(area(&inverted), 0);
}

#[test]
fn iou_exact_fraction() {
    let a = bx(0, 0, 10, 10);
    let b = bx(5, 0, 15, 10);
    assert_eq!(intersection(&a, &b), 50);
    assert_eq!(union(&a, &b), 150);
    assert_eq!(iou_ratio(&a, &b), (50, 150));
    assert!(iou_below_threshold(&a, &b));
    // 8x10 overlap of two 10x10 boxes: 80 / 120 is below 0.7.
    let c = bx(2, 0, 12, 10);
    assert!(iou_below_threshold(&a, &c));
    // 9x10 overlap: 90 / 110 is above it.
    let d = bx(1, 0, 11, 10);
    assert!(!iou_below_threshold(&a, &d));
}

#[test]
fn first_maximum_wins() {
    assert_eq!(best_class(&vec![3, 9, 9, 1]), 1);
    assert_eq!(best_class(&vec![5]), 0);
    assert_eq!(best_class(&vec![1, 2, 3]), 2);
}

#[test]
fn full_model_square_decodes_to_full_image() {
    let labels = vec![Label::Nailong];
    for (w, h) in [(1920u32, 1080u32), (1, 1), (333, 777), (640, 640)] {
        let rows = vec![row(320000, 320000, 640000, 640000, vec![900000])];
        let d = decode_detections(&rows, w, h, &labels);
        assert_eq!(d.len(), 1);
        assert_eq!(d[0].bbox, bx(0, 0, w as i64 * 1000, h as i64 * 1000));
        assert_eq!(d[0].label, Label::Nailong);
        assert_eq!(d[0].confidence, 900000);
    }
}

#[test]
fn rows_below_floor_are_dropped() {
    let labels = vec![Label::Nailong, Label::Other(1)];
    let rows = vec![
        row(100000, 100000, 20000, 20000, vec![299999, 100]),
        row(100000, 100000, 20000, 20000, vec![100, 300000]),
    ];
    let d = decode_detections(&rows, 640, 640, &labels);
    assert_eq!(d.len(), 1);
    assert_eq!(d[0].label, Label::Other(1));
    assert_eq!(d[0].confidence, 300000);
    // centre 100 px, size 20 px, on a 640 px image: corners at 90 and 110 px.
    assert_eq!(d[0].bbox, bx(90000, 90000, 110000, 110000));
}

#[test]
fn rescaling_to_half_size() {
    let labels = vec![Label::Nailong];
    let rows = vec![row(320000, 160000, 64000, 32000, vec![500000])];
    let d = decode_detections(&rows, 320, 1280, &labels);
    assert_eq!(d[0].bbox, bx(144000, 288000, 176000, 352000));
}

#[test]
fn max_target_confidence_applies_floor_and_skips_other_classes() {
    let labels = vec![Label::Nailong, Label::Other(1)];
    let rows = vec![
        row(0, 0, 1, 1, vec![200000, 100]),
        row(0, 0, 1, 1, vec![100, 950000]),
        row(0, 0, 1, 1, vec![250000, 200]),
    ];
    assert_eq!(max_target_confidence(&rows, &labels), 0);
    let rows = vec![
        row(0, 0, 1, 1, vec![250000, 100]),
        row(0, 0, 1, 1, vec![300000, 100]),
        row(0, 0, 1, 1, vec![100, 950000]),
        row(0, 0, 1, 1, vec![810000, 200]),
    ];
    assert_eq!(max_target_confidence(&rows, &labels), 810000);
    assert_eq!(max_target_confidence(&vec![], &labels), 0);
}

#[test]
fn planar_encoding_is_channel_first() {
    let rgba = vec![1, 2, 3, 4, 5, 6, 7, 8];
    let t = encode_planar(2, 1, &rgba).unwrap();
    assert_eq!(t, vec![1, 5, 2, 6, 3, 7]);
}

#[test]
fn planar_encoding_rejects_bad_sizes() {
    assert_eq!(encode_planar(0, 5, &vec![]), Err(DetectError::InvalidImage));
    assert_eq!(encode_planar(5, 0, &vec![]), Err(DetectError::InvalidImage));
    assert_eq!(encode_planar(2, 2, &vec![0; 15]), Err(DetectError::InvalidImage));
}

#[test]
fn suppression_keeps_most_confident_of_overlapping() {
    let a = det(bx(0, 0, 100, 100), Label::Nailong, 600000);
    let b = det(bx(1, 1, 101, 101), Label::Other(1), 900000);
    let c = det(bx(500, 500, 600, 600), Label::Nailong, 400000);
    let r = suppress(&vec![a, b, c]);
    assert_eq!(r, vec![b, c]);
}

#[test]
fn suppression_output_pairwise_below_threshold() {
    let cands = vec![
        det(bx(0, 0, 100, 100), Label::Nailong, 500000),
        det(bx(10, 0, 110, 100), Label::Nailong, 700000),
        det(bx(40, 0, 140, 100), Label::Nailong, 650000),
        det(bx(0, 0, 100, 100), Label::Nailong, 500000),
        det(bx(300, 300, 400, 400), Label::Nailong, 300000),
    ];
    let r = suppress(&cands);
    assert!(r.len() <= cands.len());
    for i in 0..r.len() {
        assert!(cands.contains(&r[i]));
        for j in 0..r.len() {
            if i != j {
                assert!(iou_below_threshold(&r[i].bbox, &r[j].bbox));
            }
        }
    }
    for i in 1..r.len() {
        assert!(r[i - 1].confidence >= r[i].confidence);
    }
    assert_eq!(r.len(), 3);
    assert_eq!(r[0].confidence, 700000);
}

#[test]
fn sort_is_stable_and_descending() {
    let a = det(bx(0, 0, 1, 1), Label::Nailong, 5);
    let b = det(bx(0, 0, 2, 2), Label::Nailong, 9);
    let c = det(bx(0, 0, 3, 3), Label::Nailong, 5);
    assert_eq!(sort_detections(&vec![a, b, c]), vec![b, a, c]);
    assert_eq!(suppress(&vec![]), vec![]);
}

#[test]
fn label_colors() {
    assert_eq!(color_for(Label::Nailong), Some(Color { r: 255, g: 0, b: 0, a: 255 }));
    assert_eq!(color_for(Label::Xiong), None);
    assert_eq!(color_for(Label::Other(3)), Some(Color { r: 0x80, g: 0x10, b: 0x40, a: 0x80 }));
}

#[test]
fn strokes_skip_auxiliary_label() {
    let dets = vec![
        det(bx(0, 0, 10, 10), Label::Xiong, 990000),
        det(bx(0, 0, 20, 20), Label::Nailong, 800000),
        det(bx(0, 0, 30, 30), Label::Other(2), 850000),
    ];
    let (strokes, max) = plan_strokes(&dets);
    assert_eq!(strokes.len(), 2);
    assert_eq!(strokes[0].bbox, bx(0, 0, 20, 20));
    assert_eq!(max, 850000);
    assert_eq!(plan_strokes(&vec![]).1, 0);
}

#[test]
fn overlay_merge_per_pixel() {
    let orig = vec![10, 20, 30, 0, 40, 50, 60, 7];
    let overlay = vec![0x80FF0102u32, 0x00FFFFFF];
    let out = merge_overlay(&orig, &overlay).unwrap();
    assert_eq!(out, vec![0xFF, 0x01, 0x02, 255, 40, 50, 60, 255]);
    assert_eq!(merge_overlay(&orig, &vec![0]), Err(DetectError::InvalidImage));
}

#[test]
fn update_time_counts_and_stamps() {
    let mut u = UserInfo::new();
    u.update_time(7, 100);
    u.update_time(7, 150);
    u.update_time(8, 160);
    assert_eq!(u.total_times, 3);
    assert_eq!(u.group_total_times.get(&7), Some(&2));
    assert_eq!(u.group_total_times.get(&8), Some(&1));
    assert_eq!(u.last_timestamp.get(&7), Some(&150));
    let sum: u64 = u.group_total_times.values().sum();
    assert_eq!(sum, u.total_times);
}

#[test]
fn cooldown_escalation() {
    let t: u64 = 1_000_000;
    let mut table = ModerationTable::new();
    assert!(!table.record_trigger(1, 9, t, 60));
    assert!(table.record_trigger(1, 9, t + 30, 60));
    assert_eq!(table.times(1, 9), Some((2, 2)));
    assert!(!table.record_trigger(1, 9, t + 30 + 61, 60));
    assert_eq!(table.times(1, 9), Some((3, 3)));
    assert_eq!(table.users.get(&1).unwrap().last_timestamp.get(&9), Some(&(t + 91)));
    // another group is not in cooldown
    assert!(!table.record_trigger(1, 10, t + 92, 60));
    assert_eq!(table.times(1, 10), Some((1, 4)));
    assert_eq!(table.times(2, 9), None);
}

#[test]
fn record_invariant_over_many_triggers() {
    let mut table = ModerationTable::new();
    for k in 0..50u64 {
        table.record_trigger(5, (k % 4) as i64, k * 7, 60);
    }
    let info = table.users.get(&5).unwrap();
    let sum: u64 = info.group_total_times.values().sum();
    assert_eq!(info.total_times, 50);
    assert_eq!(sum, 50);
}

#[test]
fn command_in_whitelisted_group_is_annotated() {
    let mut wl = Whitelist::new();
    wl.set(42, true);
    let cmd = "检测".to_string();
    assert_eq!(route_message(&Some("检测".to_string()), 1, &wl, 42, &cmd), Route::Annotate);
    assert_eq!(route_message(&Some("  检测\n".to_string()), 1, &wl, 42, &cmd), Route::Annotate);
    assert_eq!(route_message(&Some("看看".to_string()), 1, &wl, 42, &cmd), Route::AutoModerate);
    assert_eq!(route_message(&None, 2, &wl, 42, &cmd), Route::AutoModerate);
    assert_eq!(route_message(&None, 0, &wl, 42, &cmd), Route::Ignore);
    assert_eq!(route_message(&None, 1, &wl, 43, &cmd), Route::Ignore);
    assert_eq!(route_message(&Some("检测".to_string()), 1, &wl, 43, &cmd), Route::Annotate);
    wl.set(42, false);
    assert_eq!(route_message(&None, 1, &wl, 42, &cmd), Route::Ignore);
}

#[test]
fn command_match_trims() {
    let cmd = "我的奶龙".to_string();
    assert!(is_command(&Some(" 我的奶龙 ".to_string()), &cmd));
    assert!(!is_command(&Some("我的 奶龙".to_string()), &cmd));
    assert!(!is_command(&None, &cmd));
}

#[test]
fn admin_switch_commands() {
    let mut wl = Whitelist::new();
    let start = ".nailostart".to_string();
    let stop = ".nailostop".to_string();
    assert_eq!(apply_admin_command(&mut wl, 3, &start, &start, &stop), Some(true));
    assert!(wl.is_enabled(3));
    assert_eq!(apply_admin_command(&mut wl, 3, &"hi".to_string(), &start, &stop), None);
    assert!(wl.is_enabled(3));
    assert_eq!(apply_admin_command(&mut wl, 3, &stop, &start, &stop), Some(false));
    assert!(!wl.is_enabled(3));
    assert!(!wl.is_enabled(4));
}

#[test]
fn command_message_never_touches_records() {
    let mut wl = Whitelist::new();
    wl.set(1, true);
    let cmd = "检测".to_string();
    let table = ModerationTable::new();
    let route = route_message(&Some("检测".to_string()), 1, &wl, 1, &cmd);
    assert_eq!(route, Route::Annotate);
    assert!(table.users.is_empty());
}

#[test]
fn end_to_end_auto_moderation() {
    let policy = Policy::default();
    assert_eq!(policy.trigger, 780000);
    let mut table = ModerationTable::new();
    let labels = vec![Label::Nailong];
    let rows = vec![row(320000, 320000, 100000, 100000, vec![900000])];
    let dets = detect(&rows, 800, 600, &labels);
    assert_eq!(dets.len(), 1);
    let probs = vec![max_target_confidence(&rows, &labels)];
    assert_eq!(probs, vec![900000]);
    let now: u64 = 1_700_000_000;
    let first = auto_moderate(&mut table, 11, 22, now, &probs, &policy);
    assert!(first.reply);
    assert_eq!(first.mute_secs, None);
    assert_eq!(first.quoted, vec![900000]);
    assert!(first.delete_message);
    assert_eq!(table.times(11, 22), Some((1, 1)));
    let second = auto_moderate(&mut table, 11, 22, now + 1, &probs, &policy);
    assert!(second.reply);
    assert_eq!(second.mute_secs, Some(60));
    assert_eq!(table.times(11, 22), Some((2, 2)));
}

#[test]
fn below_trigger_changes_nothing() {
    let policy = Policy::default();
    let mut table = ModerationTable::new();
    let out = auto_moderate(&mut table, 1, 2, 100, &vec![779999, 100], &policy);
    assert!(!out.reply);
    assert_eq!(out.mute_secs, None);
    assert!(out.quoted.is_empty());
    assert!(table.users.is_empty());
}

#[test]
fn no_qualifying_detection_cleans_up_at_once() {
    let policy = Policy::default();
    let plan = plan_annotated(&vec![100000, 779999], &policy);
    assert!(!plan.reply);
    assert!(plan.saved.is_empty());
    assert_eq!(plan.cleanup_after_secs, 0);
    assert!(!plan.delete_message);
}

#[test]
fn qualifying_images_get_files_and_grace() {
    let policy = Policy { is_reply_trigger: false, ..Policy::default() };
    let plan = plan_annotated(&vec![100000, 800000, 780000], &policy);
    assert!(plan.reply);
    assert_eq!(plan.saved, vec![2, 3]);
    assert!(plan.quoted.is_empty());
    assert_eq!(plan.cleanup_after_secs, 11);
    let plan = plan_annotated(&vec![900000], &Policy::default());
    assert_eq!(plan.quoted, vec![900000]);
}

#[test]
fn annotate_draws_survivors() {
    let labels = vec![Label::Nailong, Label::Xiong];
    let rows = vec![
        row(320000, 320000, 100000, 100000, vec![900000, 0]),
        row(321000, 320000, 100000, 100000, vec![800000, 0]),
        row(100000, 100000, 50000, 50000, vec![0, 990000]),
    ];
    let (strokes, max) = annotate(&rows, 640, 640, &labels);
    assert_eq!(strokes.len(), 1);
    assert_eq!(max, 900000);
    assert_eq!(strokes[0].bbox, bx(270000, 270000, 370000, 370000));
}

#[test]
fn model_tensor_resizes_then_splits_planes() {
    let n = 640 * 640;
    let mut rgba = vec![0u8; 4 * n];
    rgba[0] = 9;
    rgba[1] = 8;
    rgba[2] = 7;
    let t = model_tensor(640, 640, &rgba).unwrap();
    assert_eq!(t.len(), 3 * n);
    assert_eq!((t[0], t[n], t[2 * n]), (9, 8, 7));
    let small = model_tensor(2, 1, &vec![200, 100, 50, 255, 200, 100, 50, 255]).unwrap();
    assert_eq!(small.len(), 3 * n);
    assert_eq!(model_tensor(0, 1, &vec![]), Err(DetectError::InvalidImage));
    assert_eq!(model_tensor(2, 2, &vec![0; 4]), Err(DetectError::InvalidImage));
}

#[test]
fn zero_area_boxes_always_survive() {
    let big = det(bx(0, 0, 100, 100), Label::Nailong, 900000);
    let flat = det(bx(10, 10, 10, 90), Label::Nailong, 800000);
    let dot = det(bx(10, 10, 10, 10), Label::Nailong, 700000);
    let r = suppress(&vec![flat, big, dot, dot]);
    assert_eq!(r, vec![big, flat, dot, dot]);
}

#[test]
fn suppression_keeps_duplicates_at_most_as_often_as_given() {
    let a = det(bx(0, 0, 100, 100), Label::Nailong, 500000);
    let r = suppress(&vec![a, a, a]);
    assert_eq!(r, vec![a]);
}

#[test]
fn trigger_in_one_group_keeps_other_groups() {
    let policy = Policy::default();
    let mut table = ModerationTable::new();
    auto_moderate(&mut table, 4, 1, 1000, &vec![900000], &policy);
    auto_moderate(&mut table, 4, 2, 2000, &vec![900000], &policy);
    let info = table.users.get(&4).unwrap();
    assert_eq!(info.last_timestamp.get(&1), Some(&1000));
    assert_eq!(info.last_timestamp.get(&2), Some(&2000));
    assert_eq!(info.group_total_times.get(&1), Some(&1));
    assert_eq!(table.times(4, 2), Some((1, 2)));
}

#[test]
fn both_modes_read_the_same_maximum() {
    let labels = vec![Label::Nailong];
    let low = vec![row(320000, 320000, 100000, 100000, vec![250000])];
    assert_eq!(annotate(&low, 640, 640, &labels).1, 0);
    assert_eq!(max_target_confidence(&low, &labels), 0);
    let rows = vec![
        row(320000, 320000, 100000, 100000, vec![850000]),
        row(321000, 320000, 100000, 100000, vec![900000]),
        row(100000, 100000, 50000, 50000, vec![400000]),
    ];
    assert_eq!(annotate(&rows, 800, 600, &labels).1, 900000);
    assert_eq!(max_target_confidence(&rows, &labels), 900000);
}
