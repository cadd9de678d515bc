use moq_vaapi::h264::dpb::{Dpb, MmcoError};
use moq_vaapi::h264::picture::{PictureData, Reference};
use moq_vaapi::h264::syntax::{MaxLongTermFrameIdx, RefPicMarkingInner};
use moq_vaapi::surface::Handle;

fn picture(frame_num: u32, pic_order_cnt: i32, reference: Reference) -> PictureData {
    let mut pic = PictureData::new_non_existing(frame_num, 0);
    pic.nonexisting = false;
    pic.pic_order_cnt = pic_order_cnt;
    pic.top_field_order_cnt = pic_order_cnt;
    pic.bottom_field_order_cnt = pic_order_cnt + 1;
    pic.pic_num = frame_num as i32;
    pic.reference = reference;
    pic
}

fn handle(timestamp: u64) -> Handle {
    Handle { surface: timestamp as u32, timestamp, width: 2, height: 2 }
}

/// A buffer of `max` frames holding references of these frame numbers, each shown
/// at twice its number.
fn buffer(max: usize, frame_nums: &[u32]) -> Dpb {
    let mut dpb = Dpb::new();
    dpb.set_limits(max, 0);
    for &n in frame_nums {
        assert!(dpb.store_picture(
            picture(n, 2 * n as i32, Reference::ShortTerm),
            Some(handle(n as u64))
        ));
    }
    dpb
}

fn timestamps(handles: &[Handle]) -> Vec<u64> {
    handles.iter().map(|h| h.timestamp).collect()
}

fn references(dpb: &Dpb) -> Vec<Reference> {
    dpb.entries().iter().map(|e| e.pic.reference).collect()
}

fn op(operation: u8) -> RefPicMarkingInner {
    RefPicMarkingInner {
        memory_management_control_operation: operation,
        difference_of_pic_nums_minus1: 0,
        long_term_pic_num: 0,
        long_term_frame_idx: 0,
        max_long_term_frame_idx: MaxLongTermFrameIdx::NoLongTermFrameIndices,
    }
}

#[test]
fn draining_goes_by_output_order_and_empties() {
    let mut dpb = buffer(4, &[5, 1, 3]);
    assert_eq!(timestamps(&dpb.drain()), vec![1, 3, 5]);
    assert!(dpb.is_empty());
    assert!(dpb.drain().is_empty());
}

#[test]
fn equal_counts_go_by_decoding_order() {
    let mut dpb = Dpb::new();
    dpb.set_limits(4, 0);
    for t in [9, 8, 7] {
        assert!(dpb.store_picture(picture(0, 4, Reference::Unused), Some(handle(t))));
    }
    assert_eq!(timestamps(&dpb.drain()), vec![9, 8, 7]);
}

#[test]
fn storing_needs_a_free_frame_buffer() {
    let mut dpb = buffer(2, &[0]);
    assert!(dpb.has_empty_frame_buffer());
    assert!(dpb.store_picture(picture(1, 2, Reference::ShortTerm), None));
    assert!(!dpb.has_empty_frame_buffer());
    assert!(!dpb.store_picture(picture(2, 4, Reference::ShortTerm), None));
    assert_eq!(dpb.entries().len(), 2);
    dpb.clear();
    assert!(dpb.is_empty());
}

#[test]
fn bumping_outputs_until_a_buffer_is_free() {
    let mut dpb = buffer(2, &[0, 1]);
    // Both stay as references, so both are output before bumping gives up.
    let next = picture(2, 4, Reference::ShortTerm);
    assert_eq!(timestamps(&dpb.bump_as_needed(&next)), vec![0, 1]);
    assert_eq!(dpb.entries().len(), 2);

    let mut dpb = buffer(2, &[0, 1]);
    dpb.mark_all_as_unused_for_ref();
    assert_eq!(timestamps(&dpb.bump_as_needed(&next)), vec![0]);
    assert_eq!(dpb.entries().len(), 1);

    // A non-reference picture pushes out only what precedes it.
    let mut dpb = buffer(2, &[3, 4]);
    let early = picture(5, 1, Reference::Unused);
    assert!(dpb.bump_as_needed(&early).is_empty());
}

#[test]
fn bumping_first_drops_what_nothing_needs() {
    let mut dpb = buffer(2, &[0, 1]);
    let next = picture(2, 4, Reference::ShortTerm);
    assert_eq!(timestamps(&dpb.bump_as_needed(&next)), vec![0, 1]);
    dpb.mark_all_as_unused_for_ref();
    assert!(dpb.bump_as_needed(&next).is_empty());
    assert!(dpb.is_empty());
}

#[test]
fn invented_pictures_are_never_output() {
    let mut dpb = buffer(4, &[0]);
    assert!(dpb.store_picture(PictureData::new_non_existing(1, 7), None));
    assert!(!dpb.entries()[1].pic.needed_for_output);
    assert_eq!(timestamps(&dpb.drain()), vec![0]);
}

#[test]
fn picture_numbers_wrap_around() {
    let mut dpb = buffer(4, &[14, 1]);
    dpb.update_pic_nums(2, 16);
    assert_eq!(dpb.entries()[0].pic.pic_num, -2);
    assert_eq!(dpb.entries()[0].pic.frame_num_wrap, -2);
    assert_eq!(dpb.entries()[1].pic.pic_num, 1);
    assert_eq!(dpb.find_short_term_with_pic_num(-2), Some(0));
    assert_eq!(dpb.find_short_term_with_pic_num(14), None);
}

#[test]
fn the_window_drops_the_oldest_short_term_reference() {
    let mut dpb = buffer(4, &[14, 15, 1]);
    dpb.update_pic_nums(2, 16);
    dpb.sliding_window_marking(3);
    assert_eq!(
        references(&dpb),
        vec![Reference::Unused, Reference::ShortTerm, Reference::ShortTerm]
    );
    dpb.sliding_window_marking(1);
    assert_eq!(references(&dpb), vec![Reference::Unused; 3]);
}

#[test]
fn operation_1_unmarks_a_short_term_reference() {
    let mut dpb = buffer(4, &[0, 1, 2]);
    let current = picture(3, 6, Reference::ShortTerm);
    let two_back = RefPicMarkingInner { difference_of_pic_nums_minus1: 1, ..op(1) };
    assert_eq!(dpb.mmco_op_1(&current, &two_back), Ok(()));
    assert_eq!(
        references(&dpb),
        vec![Reference::ShortTerm, Reference::Unused, Reference::ShortTerm]
    );
    assert_eq!(dpb.mmco_op_1(&current, &two_back), Err(MmcoError::NoShortTermPic));
}

#[test]
fn operations_2_and_3_handle_long_term_references() {
    let mut dpb = buffer(4, &[0, 1]);
    let current = picture(2, 4, Reference::ShortTerm);
    let keep = RefPicMarkingInner { long_term_frame_idx: 5, ..op(3) };
    assert_eq!(dpb.mmco_op_3(&current, &keep), Ok(()));
    assert_eq!(references(&dpb), vec![Reference::ShortTerm, Reference::LongTerm]);
    assert_eq!(dpb.entries()[1].pic.long_term_frame_idx, 5);

    // The same index moves on to another picture.
    let other = RefPicMarkingInner { difference_of_pic_nums_minus1: 1, ..keep };
    assert_eq!(dpb.mmco_op_3(&current, &other), Ok(()));
    assert_eq!(references(&dpb), vec![Reference::LongTerm, Reference::Unused]);

    dpb.update_pic_nums(2, 16);
    let gone = RefPicMarkingInner { long_term_pic_num: 5, ..op(2) };
    assert_eq!(dpb.find_long_term_with_long_term_pic_num(5), Some(0));
    assert_eq!(dpb.mmco_op_2(&gone), Ok(()));
    assert_eq!(dpb.mmco_op_2(&gone), Err(MmcoError::NoLongTermPic));
}

#[test]
fn invented_pictures_are_not_kept() {
    let mut dpb = buffer(4, &[0]);
    let mut invented = PictureData::new_non_existing(1, 0);
    invented.pic_num = 1;
    assert!(dpb.store_picture(invented, None));
    let current = picture(2, 4, Reference::ShortTerm);
    assert_eq!(dpb.mmco_op_3(&current, &op(3)), Err(MmcoError::ExpectedExisting));
}

#[test]
fn operation_4_caps_the_long_term_indices() {
    let mut dpb = buffer(4, &[0, 1]);
    let current = picture(2, 4, Reference::ShortTerm);
    for (back, idx) in [(1, 0), (0, 3)] {
        let keep = RefPicMarkingInner {
            difference_of_pic_nums_minus1: back,
            long_term_frame_idx: idx,
            ..op(3)
        };
        assert_eq!(dpb.mmco_op_3(&current, &keep), Ok(()));
    }
    let cap = RefPicMarkingInner { max_long_term_frame_idx: MaxLongTermFrameIdx::Idx(2), ..op(4) };
    assert_eq!(dpb.mmco_op_4(&cap), MaxLongTermFrameIdx::Idx(2));
    assert_eq!(references(&dpb), vec![Reference::LongTerm, Reference::Unused]);
    dpb.mmco_op_4(&op(4));
    assert_eq!(references(&dpb), vec![Reference::Unused; 2]);
}

#[test]
fn operation_5_restarts_the_counts() {
    let mut dpb = buffer(4, &[0, 1]);
    let mut current = picture(2, 40, Reference::ShortTerm);
    assert_eq!(
        dpb.mmco_op_5(&mut current),
        Ok(MaxLongTermFrameIdx::NoLongTermFrameIndices)
    );
    assert_eq!(references(&dpb), vec![Reference::Unused; 2]);
    assert!(current.has_mmco_5);
    assert_eq!((current.frame_num, current.pic_order_cnt), (0, 0));
    assert_eq!((current.top_field_order_cnt, current.bottom_field_order_cnt), (0, 1));

    let mut far = picture(2, i32::MIN, Reference::ShortTerm);
    far.bottom_field_order_cnt = i32::MAX;
    assert_eq!(dpb.mmco_op_5(&mut far), Err(MmcoError::Overflow));
}

#[test]
fn operation_6_keeps_the_current_picture() {
    let mut dpb = buffer(4, &[0]);
    let mut current = picture(1, 2, Reference::ShortTerm);
    let keep = RefPicMarkingInner { long_term_frame_idx: 2, ..op(6) };
    dpb.mmco_op_6(&mut current, &keep);
    assert_eq!((current.reference, current.long_term_frame_idx), (Reference::LongTerm, 2));
}

#[test]
fn initial_lists_go_by_number_and_by_order() {
    let mut dpb = buffer(4, &[0, 1, 2]);
    dpb.update_pic_nums(3, 16);
    let current = picture(3, 3, Reference::ShortTerm);
    let lists = dpb.build_ref_pic_lists(&current);
    // Newest first.
    assert_eq!(lists.ref_pic_list_p0, vec![2, 1, 0]);
    // Before the picture, nearest first, then after it; and the other way round.
    assert_eq!(lists.ref_pic_list_b0, vec![1, 0, 2]);
    assert_eq!(lists.ref_pic_list_b1, vec![2, 1, 0]);
}

#[test]
fn equal_b_lists_are_told_apart() {
    let mut dpb = buffer(4, &[0, 1]);
    dpb.update_pic_nums(2, 16);
    let lists = dpb.build_ref_pic_lists(&picture(2, 8, Reference::ShortTerm));
    assert_eq!(lists.ref_pic_list_b0, vec![1, 0]);
    assert_eq!(lists.ref_pic_list_b1, vec![0, 1]);
}
