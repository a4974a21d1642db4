use truce::buffer::{
    AudioBuffer, HostInput, InputSource, OutputTarget, RawBufferScratch,
};

#[test]
fn a_buffer_shows_its_block_of_the_channels() {
    let inputs = vec![vec![1.0f32, 2.0, 3.0], vec![4.0, 5.0, 6.0]];
    let mut outputs = vec![vec![0.0f32; 3]];
    let mut buffer = AudioBuffer::from_slices_checked(&inputs, &mut outputs, 3);
    assert_eq!((buffer.num_samples(), buffer.channels()), (3, 1));
    assert_eq!((buffer.num_input_channels(), buffer.num_output_channels()), (2, 1));
    assert_eq!(buffer.input(1), &[4.0, 5.0, 6.0]);
    {
        let mut part = buffer.slice(1, 2);
        assert_eq!(part.input(0), &[2.0, 3.0]);
        part.output(0)[0] = 7.0;
        let (input, output) = part.io_pair(1, 0);
        output[1] = input[1];
        let mut inner = part.slice(1, 1);
        assert_eq!(inner.io(0).0, &[3.0]);
        assert_eq!(inner.in_out_mut(0), &[6.0]);
    }
    assert_eq!(outputs, vec![vec![0.0, 7.0, 6.0]]);
}

#[test]
fn shared_channels_are_marked() {
    let inputs: Vec<Vec<f32>> = vec![];
    let mut outputs: Vec<Vec<f32>> = vec![];
    let mut buffer = AudioBuffer::from_slices_checked(&inputs, &mut outputs, 0);
    assert!(!buffer.is_in_place(0));
    buffer.set_in_place_mask(0b101);
    assert!(buffer.is_in_place(0) && !buffer.is_in_place(1) && buffer.is_in_place(2));
    assert!(!buffer.is_in_place(64));
}

#[test]
fn frames_run_one_after_the_other() {
    let inputs = vec![vec![1.0f64, 2.0, 3.0], vec![10.0, 20.0, 30.0]];
    let mut outputs = vec![vec![0.0f64; 3], vec![0.0; 3]];
    let mut buffer = AudioBuffer::from_slices_checked(&inputs, &mut outputs, 3);
    let mut part = buffer.slice(1, 2);
    // A running sum on the left, the frame number on the right.
    let frames = part.for_each_frame(2, 0u32, 0.0, |n: u32, i: &Vec<f64>, o: Vec<f64>| {
        (n + 1, vec![o[0] + i[0] + i[1], f64::from(n)])
    });
    assert_eq!(frames, 2);
    assert_eq!(outputs, vec![vec![0.0, 22.0, 55.0], vec![0.0, 0.0, 1.0]]);
}

fn input(address: usize, samples: &[f32]) -> Option<HostInput<'_, f32>> {
    Some(HostInput { address, samples })
}

#[test]
fn shared_inputs_are_copied_unless_read_in_place() {
    let left = [0.5f32, 0.25];
    let right = [1.0f32, 2.0];
    let inputs = vec![input(1000, &left), input(2000, &right), None];
    let outputs = vec![Some(1000), None, Some(3000)];
    let mut scratch = RawBufferScratch::<f32>::default();
    let plan = scratch.build(&inputs, &outputs, 2, 8, true, false, 0.0, |h: f32| h);
    assert_eq!(plan.inputs, [InputSource::Copied, InputSource::Host, InputSource::Missing]);
    assert_eq!(plan.outputs, [OutputTarget::Host, OutputTarget::Missing, OutputTarget::Host]);
    assert_eq!(plan.in_place_mask, 0b001);
    assert_eq!(scratch.input_copies[0], left);
    let plan = scratch.build(&inputs, &outputs, 2, 8, true, true, 0.0, |h: f32| h);
    assert_eq!(plan.inputs[0], InputSource::Shared);
    // Memory that only touches does not overlap.
    let plan = scratch.build(&inputs, &vec![Some(1008), Some(992)], 2, 8, true, false, 0.0, |h: f32| h);
    assert_eq!(plan.in_place_mask, 0);
    assert_eq!(plan.inputs[0], InputSource::Host);
}

#[test]
fn overlap_with_another_channel_is_copied() {
    let left = [0.5f32, 0.25];
    let right = [1.0f32, 2.0];
    let inputs = vec![input(1000, &left), input(2000, &right)];
    let mut scratch = RawBufferScratch::<f32>::default();
    // Swapped channels: reading in place would read the other channel.
    let swapped = vec![Some(2000), Some(1000)];
    let plan = scratch.build(&inputs, &swapped, 2, 8, true, true, 0.0, |h: f32| h);
    assert_eq!(plan.inputs, [InputSource::Copied, InputSource::Copied]);
    assert_eq!(plan.in_place_mask, 0);
    assert_eq!((&scratch.input_copies[0][..], &scratch.input_copies[1][..]), (&left[..], &right[..]));
    // A buffer that overlaps its own output in part is not the same buffer.
    let plan = scratch.build(&inputs, &vec![Some(1004), None], 2, 8, true, true, 0.0, |h: f32| h);
    assert_eq!(plan.inputs, [InputSource::Copied, InputSource::Host]);
    assert_eq!(plan.in_place_mask, 0);
}

#[test]
fn channels_past_the_mask_are_never_read_in_place() {
    let samples = [1.0f32];
    let inputs = (0..65).map(|ch| input(1000 + 4 * ch, &samples)).collect();
    let outputs = (0..65).map(|ch| Some(1000 + 4 * ch)).collect();
    let mut scratch = RawBufferScratch::<f32>::default();
    let plan = scratch.build(&inputs, &outputs, 1, 4, true, true, 0.0, |h: f32| h);
    assert_eq!(plan.in_place_mask, u64::MAX);
    assert!(plan.inputs[..64].iter().all(|source| *source == InputSource::Shared));
    assert_eq!(plan.inputs[64], InputSource::Host);
}

#[test]
fn other_precisions_go_through_scratch_memory() {
    let left = [0.5f32, 0.25];
    let inputs = vec![input(1000, &left)];
    let outputs = vec![Some(2000), None];
    let mut scratch = RawBufferScratch::<f64>::default();
    let plan = scratch.build(&inputs, &outputs, 2, 8, false, true, 0.0, |h: f32| f64::from(h));
    assert_eq!(plan.inputs, [InputSource::Copied]);
    assert_eq!(plan.outputs, [OutputTarget::Scratch, OutputTarget::Missing]);
    assert_eq!(scratch.input_copies[0], [0.5f64, 0.25]);
    assert_eq!(scratch.output_buffers[0], [0.0f64, 0.0]);
    scratch.output_buffers[0][1] = 0.75;
    let mut host = vec![Some(vec![9.0f32, 9.0]), None];
    scratch.finish_widening(&mut host, false, |s: f64| s as f32);
    assert_eq!(host, vec![Some(vec![0.0, 0.75]), None]);
    let mut same = vec![Some(vec![9.0f32])];
    scratch.finish_widening(&mut same, true, |s: f64| s as f32);
    assert_eq!(same, vec![Some(vec![9.0])]);
}

#[test]
fn capacity_grows_and_contents_stay() {
    let mut scratch = RawBufferScratch::<f32>::default();
    scratch.ensure_capacity(2, 1, 64);
    assert_eq!((scratch.input_copies.len(), scratch.output_buffers.len()), (2, 1));
    assert!(scratch.input_copies.iter().all(|c| c.is_empty() && c.capacity() >= 64));
    scratch.input_copies[0].push(1.0);
    scratch.ensure_capacity(1, 3, 128);
    assert_eq!((scratch.input_copies.len(), scratch.output_buffers.len()), (2, 3));
    assert_eq!(scratch.input_copies[0], [1.0]);
    assert!(scratch.input_copies[0].capacity() >= 128);
}
