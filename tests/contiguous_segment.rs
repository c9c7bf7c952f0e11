use bevy_cryotheum::contiguous_segment::{ContiguousSegments, Segment};

// Lengths and positions below are in thousandths: 2.9 is written 2900.

fn layout<T: Copy>(c: &ContiguousSegments<T>) -> Vec<(u64, u64, T)> {
    let mut out = Vec::new();
    for i in 0..c.count() {
        let s = c.get(i).unwrap();
        out.push((s.segment.segment_alignment(), s.segment.segment_length(), *s.segment_value()));
    }
    out
}

fn build<T>(parts: Vec<(u64, T)>) -> ContiguousSegments<T> {
    let segments: Vec<Segment<T>> = parts.into_iter().map(|(l, v)| Segment::new(v, l)).collect();
    ContiguousSegments::from_segments(segments)
}

fn assert_contiguous<T: Copy>(c: &ContiguousSegments<T>) {
    let l = layout(c);
    let mut running = 0;
    for (alignment, length, _) in &l {
        assert_eq!(*alignment, running);
        running += length;
    }
    assert_eq!(c.total_length(), running);
}

#[test]
fn lookup_by_position() {
    let c = build(vec![(3000, 'x'), (5000, 'y'), (2000, 'z')]);
    assert_eq!(c.get_alignment(0), Some(0));
    assert_eq!(c.get_alignment(1), Some(3000));
    assert_eq!(c.get_alignment(2), Some(8000));
    assert_eq!(c.total_length(), 10000);
    assert_eq!(c.get_at(0).unwrap().segment_index(), 0);
    assert_eq!(c.get_at(2900).unwrap().segment_index(), 0);
    assert_eq!(c.get_at(3000).unwrap().segment_index(), 1);
    assert_eq!(c.get_at(7999).unwrap().segment_index(), 1);
    assert_eq!(c.get_at(9500).unwrap().segment_index(), 2);
    assert!(c.get_at(10000).is_none());
    assert_eq!(c.get_index_at(9999), Some(2));
    assert_eq!(c.get_index_at(10000), None);
    assert_eq!(c.get_alignment_at(7999), Some(3000));
    assert_eq!(c.get_ia_at(8000), Some((2, 8000)));
    assert_eq!(c.partition_point(10500), 3);
}

#[test]
fn split_then_merge_restores() {
    let mut c: ContiguousSegments<&str> = ContiguousSegments::from_segment(Segment::new("a", 10000));
    {
        let [low, high] = c.split_at(4000).unwrap();
        assert_eq!(low.segment_index(), 0);
        assert_eq!(high.segment_index(), 1);
        assert_eq!(low.segment.segment_length(), 4000);
        assert_eq!(high.segment.segment_alignment(), 4000);
        assert_eq!(high.segment.segment_length(), 6000);
    }
    assert_eq!(c.count(), 2);
    c.merge();
    assert_eq!(layout(&c), vec![(0, 10000, "a")]);
    assert_eq!(c.total_length(), 10000);
}

#[test]
fn split_at_end_is_none() {
    let mut c: ContiguousSegments<&str> = ContiguousSegments::from_segment(Segment::new("a", 10000));
    assert!(c.split_at(10000).is_none());
    let mut e: ContiguousSegments<&str> = ContiguousSegments::new();
    assert!(e.split_at(0).is_none());
}

#[test]
fn set_range_aligned_full_replace() {
    let mut c = build(vec![(4000, "a"), (4000, "a")]);
    assert_eq!(c.set_range(Some(0), Some(8000), "b"), Some(0));
    assert_eq!(layout(&c), vec![(0, 8000, "b")]);
    assert_eq!(c.total_length(), 8000);
}

#[test]
fn set_range_three_way_split() {
    let mut c: ContiguousSegments<&str> = ContiguousSegments::from_segment(Segment::new("a", 10000));
    assert_eq!(c.set_range(Some(3000), Some(6000), "b"), Some(1));
    assert_eq!(layout(&c), vec![(0, 3000, "a"), (3000, 3000, "b"), (6000, 4000, "a")]);
}

#[test]
fn set_range_two_way_split() {
    let mut c = build(vec![(5000, "a"), (5000, "c")]);
    assert_eq!(c.set_range(Some(5000), Some(7000), "b"), Some(1));
    assert_eq!(layout(&c), vec![(0, 5000, "a"), (5000, 2000, "b"), (7000, 3000, "c")]);
}

#[test]
fn set_range_aligned_across_segments() {
    let mut c = build(vec![(2000, "a"), (2000, "b"), (2000, "c"), (2000, "d")]);
    assert_eq!(c.set_range(Some(2000), Some(7000), "x"), Some(1));
    assert_eq!(layout(&c), vec![(0, 2000, "a"), (2000, 5000, "x"), (7000, 1000, "d")]);
    assert_eq!(c.total_length(), 8000);
}

#[test]
fn set_range_unaligned_adjacent_segments() {
    let mut c = build(vec![(4000, "a"), (4000, "b")]);
    assert_eq!(c.set_range(Some(1000), Some(5000), "x"), Some(1));
    assert_eq!(layout(&c), vec![(0, 1000, "a"), (1000, 4000, "x"), (5000, 3000, "b")]);
}

#[test]
fn set_range_unaligned_with_segments_between() {
    let mut c = build(vec![(2000, "a"), (2000, "b"), (2000, "c"), (2000, "d"), (2000, "e")]);
    assert_eq!(c.set_range(Some(1000), Some(9000), "x"), Some(1));
    assert_eq!(layout(&c), vec![(0, 1000, "a"), (1000, 8000, "x"), (9000, 1000, "e")]);
    assert_eq!(c.total_length(), 10000);
}

#[test]
fn set_range_open_end() {
    let mut c = build(vec![(3000, "a"), (3000, "b"), (3000, "c")]);
    assert_eq!(c.set_range(Some(4000), None, "x"), Some(2));
    assert_eq!(layout(&c), vec![(0, 3000, "a"), (3000, 1000, "b"), (4000, 5000, "x")]);
    let mut d = build(vec![(3000, "a"), (3000, "b"), (3000, "c")]);
    assert_eq!(d.set_range(Some(3000), None, "x"), Some(1));
    assert_eq!(layout(&d), vec![(0, 3000, "a"), (3000, 6000, "x")]);
}

#[test]
fn set_range_open_start() {
    let mut c = build(vec![(3000, "a"), (3000, "b")]);
    assert_eq!(c.set_range(None, Some(4000), "x"), Some(0));
    assert_eq!(layout(&c), vec![(0, 4000, "x"), (4000, 2000, "b")]);
}

#[test]
fn set_range_past_the_end_extends() {
    let mut c = build(vec![(3000, "a"), (3000, "b")]);
    assert_eq!(c.set_range(Some(1000), Some(9000), "x"), Some(1));
    assert_eq!(layout(&c), vec![(0, 1000, "a"), (1000, 8000, "x")]);
    assert_eq!(c.total_length(), 9000);
    let mut d: ContiguousSegments<&str> = ContiguousSegments::from_segment(Segment::new("a", 3000));
    assert_eq!(d.set_range(Some(2000), Some(5000), "x"), Some(1));
    assert_eq!(layout(&d), vec![(0, 2000, "a"), (2000, 3000, "x")]);
}

#[test]
fn set_range_unbounded_is_set_whole() {
    let mut c = build(vec![(3000, "a"), (3000, "b")]);
    assert_eq!(c.set_range(None, None, "x"), Some(0));
    assert_eq!(layout(&c), vec![(0, 6000, "x")]);
    let mut e: ContiguousSegments<&str> = ContiguousSegments::new();
    assert_eq!(e.set_range(None, None, "x"), None);
    assert_eq!(e.count(), 0);
}

#[test]
fn set_whole_collapses() {
    let mut c = build(vec![(1000, 1u8), (2000, 2), (3000, 3)]);
    assert_eq!(c.set_whole(9), Some(0));
    assert_eq!(layout(&c), vec![(0, 6000, 9)]);
    let mut e: ContiguousSegments<u8> = ContiguousSegments::new();
    assert_eq!(e.set_whole(9), None);
}

#[test]
fn truncate_at_shortens_boundary_segment() {
    let mut c = build(vec![(5000, 'a'), (5000, 'b')]);
    c.truncate_at(7000);
    assert_eq!(layout(&c), vec![(0, 5000, 'a'), (5000, 2000, 'b')]);
    assert_eq!(c.total_length(), 7000);
    c.truncate_at(9000);
    assert_eq!(c.total_length(), 7000);
    c.truncate_at(5000);
    assert_eq!(layout(&c), vec![(0, 5000, 'a')]);
}

#[test]
fn truncate_to_empty_resets_total() {
    let mut c = build(vec![(5000, 'a'), (5000, 'b')]);
    c.truncate(1);
    assert_eq!(c.total_length(), 5000);
    c.truncate(0);
    assert_eq!(c.count(), 0);
    assert_eq!(c.total_length(), 0);
}

#[test]
fn clean_removes_empty_segments() {
    let mut c = build(vec![(2000, 'a'), (0, 'b'), (3000, 'c'), (0, 'd')]);
    c.clean();
    assert_eq!(layout(&c), vec![(0, 2000, 'a'), (2000, 3000, 'c')]);
    assert_eq!(c.total_length(), 5000);
}

#[test]
fn merge_joins_runs() {
    let mut c = build(vec![(1000, 'a'), (1000, 'a'), (2000, 'b'), (1000, 'a'), (1000, 'a'), (1000, 'a')]);
    c.merge();
    assert_eq!(layout(&c), vec![(0, 2000, 'a'), (2000, 2000, 'b'), (4000, 3000, 'a')]);
    assert_eq!(c.total_length(), 7000);
}

#[test]
fn push_pop_insert() {
    let mut c: ContiguousSegments<char> = ContiguousSegments::new();
    assert!(c.pop().is_none());
    c.push(Segment::new('a', 1000));
    c.push(Segment::new('c', 3000));
    c.insert(1, Segment::new('b', 2000));
    assert_eq!(layout(&c), vec![(0, 1000, 'a'), (1000, 2000, 'b'), (3000, 3000, 'c')]);
    assert_eq!(c.insert_at(1500, Segment::new('x', 500)), 1);
    assert_eq!(layout(&c), vec![(0, 1000, 'a'), (1000, 500, 'x'), (1500, 2000, 'b'), (3500, 3000, 'c')]);
    assert_eq!(c.insert_at(99999, Segment::new('z', 100)), 4);
    let last = c.pop().unwrap();
    assert_eq!(last.segment_length(), 100);
    assert_eq!(*last.segment_value(), 'z');
    assert_eq!(c.total_length(), 6500);
    assert_contiguous(&c);
}

#[test]
fn set_length_moves_the_rest() {
    let mut c = build(vec![(1000, 'a'), (1000, 'b'), (1000, 'c')]);
    c.set_length(0, 4000);
    assert_eq!(layout(&c), vec![(0, 4000, 'a'), (4000, 1000, 'b'), (5000, 1000, 'c')]);
    c.set_length(2, 500);
    assert_eq!(c.total_length(), 5500);
    assert_eq!(c.get_length(2), 500);
    let mut one: ContiguousSegments<char> = ContiguousSegments::from_segment(Segment::new('a', 10));
    one.set_length(0, 20);
    assert_eq!(one.total_length(), 20);
}

#[test]
fn value_changes_through_views() {
    let mut c = build(vec![(1000, 'a'), (1000, 'b')]);
    {
        let mut v = c.get_mut_at(1500).unwrap();
        assert_eq!(v.index(), 1);
        *v.segment_value_mut() = 'q';
    }
    assert_eq!(layout(&c), vec![(0, 1000, 'a'), (1000, 1000, 'q')]);
    assert!(c.get_mut(7).is_none());
    *c.get_mut(0).unwrap().segment_value_mut() = 'p';
    assert_eq!(layout(&c), vec![(0, 1000, 'p'), (1000, 1000, 'q')]);
}

#[test]
fn realign_keeps_alignment() {
    let mut c = build(vec![(1000, 'a'), (2000, 'b')]);
    c.realign();
    c.realign_from(1);
    c.realign_from(7);
    assert_eq!(layout(&c), vec![(0, 1000, 'a'), (1000, 2000, 'b')]);
}

#[test]
fn contiguity_and_conservation_after_edits() {
    let mut c = build(vec![(3000, 1u8), (5000, 2), (2000, 3)]);
    c.set_range(Some(2000), Some(4000), 7);
    assert_contiguous(&c);
    c.split_at(9000);
    assert_contiguous(&c);
    c.insert(0, Segment::new(4, 500));
    assert_contiguous(&c);
    c.truncate_at(8000);
    assert_contiguous(&c);
    c.merge();
    assert_contiguous(&c);
    let sum: u64 = layout(&c).iter().map(|(_, l, _)| *l).sum();
    assert_eq!(sum, c.total_length());
}

#[test]
fn split_at_a_boundary_leaves_an_empty_lower_part() {
    let mut c = build(vec![(3000, 'a'), (2000, 'b')]);
    {
        let [low, high] = c.split_at(3000).unwrap();
        assert_eq!(low.segment_index(), 1);
        assert_eq!(low.segment.segment_length(), 0);
        assert_eq!(high.segment.segment_length(), 2000);
    }
    assert_contiguous(&c);
    c.clean();
    assert_eq!(layout(&c), vec![(0, 3000, 'a'), (3000, 2000, 'b')]);
}

#[test]
fn clone_keeps_the_layout() {
    let c = build(vec![(3000, 'a'), (2000, 'b')]);
    let d = c.clone();
    assert_eq!(layout(&d), layout(&c));
    assert_eq!(d.total_length(), 5000);
    assert_eq!(d.as_slice().len(), 2);
}
