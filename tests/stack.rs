use std::sync::Arc;

use bosing::schedule::{
    arrange, measure, Element, ElementCommonBuilder, ElementRef, ElementVariant, Play,
    ScheduleOptions, Barrier, MeasureResultVariant, ScheduleError,
};
use bosing::stack::{map_and_collect_by_direction, measure_stack, Direction, Helper, Stack};

fn play(channel: u64, width: i64, plateau: i64) -> ElementRef {
    let common = ElementCommonBuilder::new().build().unwrap();
    let p = Play::new(channel, width, plateau, false).unwrap();
    Arc::new(Element::new(common, ElementVariant::Play(p)))
}

fn stack(direction: Direction, children: Vec<ElementRef>) -> ElementRef {
    let common = ElementCommonBuilder::new().build().unwrap();
    let s = Stack::new().with_direction(direction).with_children(children);
    Arc::new(Element::new(common, ElementVariant::Stack(s)))
}

fn options() -> ScheduleOptions {
    ScheduleOptions { time_tolerance: 0, allow_oversize: false }
}

#[test]
fn test_helper_no_channels() {
    let mut helper = Helper::new(&[]);
    assert_eq!(helper.get_usage(&[]), 0);
    let time = 10;
    helper.update_usage(time, &[]);
    assert_eq!(helper.get_usage(&[]), time);
    assert_eq!(helper.into_max_usage(), time);
}

#[test]
fn test_helper_with_channels() {
    let channels = (0..5u64).collect::<Vec<_>>();
    let mut helper = Helper::new(&channels);
    assert_eq!(helper.get_usage(&[]), 0);
    assert_eq!(helper.get_usage(&[channels[0]]), 0);

    let t1 = 10;
    helper.update_usage(t1, &[]);
    assert_eq!(helper.get_usage(&[]), t1);
    assert_eq!(helper.get_usage(&[channels[0]]), t1);

    let t2 = 20;
    helper.update_usage(t2, &[channels[0]]);
    assert_eq!(helper.get_usage(&[]), t2);
    assert_eq!(helper.get_usage(&[channels[0]]), t2);
    assert_eq!(helper.get_usage(&[channels[1]]), t1);
    assert_eq!(helper.get_usage(&[channels[0], channels[1]]), t2);
    assert_eq!(helper.into_max_usage(), t2);
}

#[test]
fn test_collect_by_direction() {
    let v = vec![1, 2, 3, 4, 5];
    let mut count = 0;
    let forward = map_and_collect_by_direction(&v, Direction::Forward, |&i| {
        let ret = (count, i);
        count += 1;
        Ok(ret)
    })
    .unwrap();
    assert_eq!(forward, vec![(0, 1), (1, 2), (2, 3), (3, 4), (4, 5)]);
    let mut count = 0;
    let backward = map_and_collect_by_direction(&v, Direction::Backward, |&i| {
        let ret = (count, i);
        count += 1;
        Ok(ret)
    })
    .unwrap();
    assert_eq!(backward, vec![(4, 1), (3, 2), (2, 3), (1, 4), (0, 5)]);
}

fn check_measure_with_channels(direction: Direction, offsets: &[i64]) {
    let children = vec![
        play(0, 0, 10),
        play(1, 0, 20),
        {
            let common = ElementCommonBuilder::new().build().unwrap();
            let mut p = Play::new(0, 0, 20, false).unwrap();
            p.channel_ids = vec![0, 1];
            Arc::new(Element::new(common, ElementVariant::Play(p)))
        },
        play(0, 0, 20),
        play(1, 0, 10),
    ];
    let measured = children.into_iter().map(measure).collect::<Vec<_>>();
    let (total, child_offsets) = measure_stack(&measured, &[0, 1], direction);
    assert_eq!(total, 60);
    assert_eq!(child_offsets, offsets.to_vec());
}

#[test]
fn measure_with_channels_forward() {
    check_measure_with_channels(Direction::Forward, &[0, 0, 20, 40, 40]);
}

#[test]
fn measure_with_channels_backward() {
    check_measure_with_channels(Direction::Backward, &[40, 40, 20, 0, 0]);
}

#[test]
fn measure_no_channels_forward_and_backward() {
    let children = vec![
        Arc::new(Element::new(
            ElementCommonBuilder::new().duration(Some(10)).build().unwrap(),
            ElementVariant::Barrier(Barrier::new(vec![])),
        )),
        Arc::new(Element::new(
            ElementCommonBuilder::new().duration(Some(20)).build().unwrap(),
            ElementVariant::Barrier(Barrier::new(vec![])),
        )),
        Arc::new(Element::new(
            ElementCommonBuilder::new().duration(Some(30)).build().unwrap(),
            ElementVariant::Barrier(Barrier::new(vec![])),
        )),
    ];
    let measured = children.into_iter().map(measure).collect::<Vec<_>>();
    let (total, offsets) = measure_stack(&measured, &[], Direction::Forward);
    assert_eq!(total, 60);
    assert_eq!(offsets, vec![0, 10, 30]);
    let (total, offsets) = measure_stack(&measured, &[], Direction::Backward);
    assert_eq!(total, 60);
    assert_eq!(offsets, vec![50, 30, 0]);
}

#[test]
fn backward_stack_places_first_play_last() {
    let root = stack(Direction::Backward, vec![play(0, 0, 1), play(0, 0, 2)]);
    let measured = measure(root);
    assert_eq!(measured.duration(), 3);
    match &measured.data {
        MeasureResultVariant::Multiple(_, offsets) => assert_eq!(offsets, &vec![2, 0]),
        MeasureResultVariant::Simple => panic!("a stack has children"),
    }
    let arranged = arrange(&measured, 0, 3, &options()).unwrap();
    let children = arranged.try_get_children().unwrap();
    assert_eq!(children[0].inner_time(), 0);
    assert_eq!(children[1].inner_time(), 1);
    assert_eq!(arranged.inner_duration(), 3);
}

#[test]
fn forward_stack_places_in_order() {
    let root = stack(Direction::Forward, vec![play(0, 0, 1), play(0, 0, 2)]);
    let measured = measure(root);
    let arranged = arrange(&measured, 0, 3, &options()).unwrap();
    let children = arranged.try_get_children().unwrap();
    assert_eq!(children[0].inner_time(), 0);
    assert_eq!(children[1].inner_time(), 1);
}

#[test]
fn barrier_aligns_channels() {
    let common = ElementCommonBuilder::new().build().unwrap();
    let barrier = Arc::new(Element::new(common, ElementVariant::Barrier(Barrier::new(vec![0, 1]))));
    let root = stack(Direction::Forward, vec![play(0, 1, 0), barrier, play(1, 1, 0)]);
    let measured = measure(root);
    assert_eq!(measured.duration(), 2);
    let arranged = arrange(&measured, 0, 2, &options()).unwrap();
    let children = arranged.try_get_children().unwrap();
    assert_eq!(children[2].inner_time(), 1);
}

#[test]
fn disjoint_channels_overlap() {
    let root = stack(Direction::Forward, vec![play(0, 0, 3), play(1, 0, 5)]);
    assert_eq!(measure(root).duration(), 5);
    let root = stack(Direction::Forward, vec![play(0, 0, 3), play(0, 0, 5)]);
    assert_eq!(measure(root).duration(), 8);
}

#[test]
fn collect_by_direction_stops_at_error() {
    let v = vec![1, 2, 3];
    let mut calls = 0;
    let r: Result<Vec<i32>, ScheduleError> = map_and_collect_by_direction(&v, Direction::Backward, |&i| {
        calls += 1;
        if i == 2 {
            Err(ScheduleError::InvalidQuantity)
        } else {
            Ok(i)
        }
    });
    assert_eq!(r.unwrap_err(), ScheduleError::InvalidQuantity);
    assert_eq!(calls, 2);
}

#[test]
fn collect_by_direction_on_empty_source() {
    let v: Vec<i32> = vec![];
    let r = map_and_collect_by_direction(&v, Direction::Backward, |&i| Ok(i)).unwrap();
    assert!(r.is_empty());
}

#[test]
fn child_without_channels_waits_for_all() {
    let common = ElementCommonBuilder::new().duration(Some(4)).build().unwrap();
    let all = Arc::new(Element::new(common, ElementVariant::Barrier(Barrier::new(vec![]))));
    let root = stack(Direction::Forward, vec![play(0, 0, 3), play(1, 0, 5), all]);
    // The empty channel list occupies both channels after the longer play.
    let measured = measure(root);
    assert_eq!(measured.duration(), 9);
}

#[test]
fn backward_offsets_mirror_forward_of_reversed() {
    let a = play(0, 0, 1);
    let b = play(0, 0, 2);
    let backward = measure(stack(Direction::Backward, vec![a.clone(), b.clone()]));
    let forward_reversed = measure(stack(Direction::Forward, vec![b, a]));
    assert_eq!(backward.duration(), forward_reversed.duration());
    let ob = match &backward.data {
        MeasureResultVariant::Multiple(_, o) => o.clone(),
        MeasureResultVariant::Simple => panic!("a stack has children"),
    };
    let of = match &forward_reversed.data {
        MeasureResultVariant::Multiple(_, o) => o.clone(),
        MeasureResultVariant::Simple => panic!("a stack has children"),
    };
    assert_eq!(ob, vec![of[1], of[0]]);
}
