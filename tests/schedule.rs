use std::sync::Arc;

use bosing::absolute::{Absolute, AbsoluteEntry};
use bosing::quant::{add_time, clamp_duration, TIME_INFINITY};
use bosing::schedule::{
    arrange, measure, Element, ElementCommonBuilder, ElementRef, ElementVariant, Play,
    ScheduleError, ScheduleOptions,
};

fn play_with(common_margin: (i64, i64), channel: u64, plateau: i64) -> ElementRef {
    let common = ElementCommonBuilder::new().margin(common_margin).build().unwrap();
    let p = Play::new(channel, 0, plateau, false).unwrap();
    Arc::new(Element::new(common, ElementVariant::Play(p)))
}

#[test]
fn builder_defaults() {
    let c = ElementCommonBuilder::new().build().unwrap();
    assert_eq!(c.margin(), (0, 0));
    assert_eq!(c.duration(), None);
    assert_eq!(c.min_duration(), 0);
    assert_eq!(c.max_duration(), TIME_INFINITY);
    assert!(!c.phantom());
    assert_eq!(c.clamp_min_max_duration(), (0, TIME_INFINITY));
}

#[test]
fn builder_rejects_invalid_settings() {
    assert_eq!(
        ElementCommonBuilder::new().margin((TIME_INFINITY, 0)).build().unwrap_err(),
        ScheduleError::InvalidCommon
    );
    assert_eq!(
        ElementCommonBuilder::new().duration(Some(-1)).build().unwrap_err(),
        ScheduleError::InvalidCommon
    );
    assert_eq!(
        ElementCommonBuilder::new().min_duration(-1).build().unwrap_err(),
        ScheduleError::InvalidCommon
    );
    assert_eq!(
        ElementCommonBuilder::new().max_duration(-1).build().unwrap_err(),
        ScheduleError::InvalidCommon
    );
}

#[test]
fn fixed_duration_collapses_bounds() {
    let c = ElementCommonBuilder::new()
        .duration(Some(5))
        .min_duration(7)
        .build()
        .unwrap();
    assert_eq!(c.clamp_min_max_duration(), (7, 7));
}

#[test]
fn arithmetic_saturates() {
    assert_eq!(add_time(TIME_INFINITY, 1), TIME_INFINITY);
    assert_eq!(add_time(3, 4), 7);
    assert_eq!(clamp_duration(10, 2, 5), 5);
    assert_eq!(clamp_duration(1, 2, 5), 2);
}

#[test]
fn play_rejects_negative_width() {
    assert_eq!(Play::new(0, -1, 0, false).unwrap_err(), ScheduleError::InvalidQuantity);
}

#[test]
fn flexible_play_measures_plateau() {
    let common = ElementCommonBuilder::new().build().unwrap();
    let p = Play::new(0, 4, 6, true).unwrap();
    let m = measure(Arc::new(Element::new(common, ElementVariant::Play(p))));
    assert_eq!(m.duration(), 6);
    let a = arrange(&m, 0, 2, &ScheduleOptions { time_tolerance: 0, allow_oversize: true }).unwrap();
    assert_eq!(a.inner_duration(), 4);
}

#[test]
fn margins_add_to_measure() {
    let m = measure(play_with((1, 2), 0, 5));
    assert_eq!(m.duration(), 8);
    let a = arrange(&m, 10, 8, &ScheduleOptions { time_tolerance: 0, allow_oversize: false }).unwrap();
    assert_eq!(a.inner_time(), 11);
    assert_eq!(a.inner_duration(), 5);
}

#[test]
fn absolute_entry_rejects_infinite_time() {
    let e = AbsoluteEntry::new(play_with((0, 0), 0, 1));
    assert_eq!(e.with_time(TIME_INFINITY).unwrap_err(), ScheduleError::InvalidAbsoluteTime);
}

#[test]
fn absolute_places_children_at_offsets() {
    let entries = vec![
        AbsoluteEntry::new(play_with((1, 0), 0, 2)).with_time(3).unwrap(),
        AbsoluteEntry::new(play_with((0, 0), 1, 4)).with_time(0).unwrap(),
    ];
    let abs = Absolute::new().with_children(entries);
    let mut ids = abs.channel_ids.clone();
    ids.sort();
    assert_eq!(ids, vec![0, 1]);
    let common = ElementCommonBuilder::new().build().unwrap();
    let m = measure(Arc::new(Element::new(common, ElementVariant::Absolute(abs))));
    assert_eq!(m.duration(), 6);
    let a = arrange(&m, 0, 10, &ScheduleOptions { time_tolerance: 0, allow_oversize: false }).unwrap();
    assert_eq!(a.inner_duration(), 10);
    let children = a.try_get_children().unwrap();
    assert_eq!(children[0].inner_time(), 4);
    assert_eq!(children[1].inner_time(), 0);
}

#[test]
fn empty_absolute_measures_zero() {
    let common = ElementCommonBuilder::new().build().unwrap();
    let m = measure(Arc::new(Element::new(common, ElementVariant::Absolute(Absolute::new()))));
    assert_eq!(m.duration(), 0);
}

#[test]
fn oversize_is_refused() {
    let m = measure(play_with((0, 0), 0, 5));
    let strict = ScheduleOptions { time_tolerance: 1, allow_oversize: false };
    assert_eq!(arrange(&m, 0, 3, &strict).unwrap_err(), ScheduleError::OversizeDisallowed);
    assert!(arrange(&m, 0, 4, &strict).is_ok());
    let lax = ScheduleOptions { time_tolerance: 1, allow_oversize: true };
    assert!(arrange(&m, 0, 3, &lax).is_ok());
}

#[test]
fn oversize_of_clipped_child_is_refused() {
    let common = ElementCommonBuilder::new().max_duration(2).build().unwrap();
    let p = Play::new(0, 0, 5, false).unwrap();
    let child = Arc::new(Element::new(common, ElementVariant::Play(p)));
    let entries = vec![AbsoluteEntry::new(child)];
    let common = ElementCommonBuilder::new().build().unwrap();
    let root = Arc::new(Element::new(common, ElementVariant::Absolute(Absolute::new().with_children(entries))));
    let m = measure(root);
    let strict = ScheduleOptions { time_tolerance: 0, allow_oversize: false };
    assert_eq!(arrange(&m, 0, 100, &strict).unwrap_err(), ScheduleError::OversizeDisallowed);
}
