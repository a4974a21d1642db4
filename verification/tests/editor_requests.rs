use truce::aax::{self, AaxInstance};
use truce::au::AuInstance;
use truce::au_host;
use truce::clap::{ClapInstance, GuiParamChange};
use truce::clap_gui::{can_request_resize, editor_automate};
use truce::process::{PluginRuntime, ProcessStatus};
use truce::events::{EventList, TransportInfo};
use truce::state::{
    apply_params, receive_extra, receive_state, DeserializedState, StateLoadError, StateLoadQueue,
};
use truce::wrapper::{write_value_text, HostTransport};

struct Quiet {
    seen: Vec<TransportInfo>,
    restored: usize,
}

impl PluginRuntime for Quiet {
    fn set_plain(&mut self, _id: u32, _value: u64) {}
    fn restore_values(&mut self, params: &Vec<(u32, u64)>) {
        self.restored += params.len();
    }
    fn snap_smoothers(&mut self) {}
    fn load_state(&mut self, _bytes: &Vec<u8>) -> Result<(), StateLoadError> {
        Ok(())
    }
    fn process(
        &mut self,
        _block_start: usize,
        _num_samples: usize,
        _events: &EventList,
        transport: &TransportInfo,
        _output_events: &mut EventList,
    ) -> ProcessStatus {
        self.seen.push(*transport);
        ProcessStatus::Normal
    }
    fn latency(&self) -> u32 {
        0
    }
    fn tail(&self) -> u32 {
        0
    }
}

#[test]
fn an_automated_value_is_a_whole_gesture() {
    let mut inst = ClapInstance::new(vec![], 32, 0, 0);
    let first = editor_automate(&mut inst, 3, 7, true, true);
    assert!(first.flush && first.callback);
    assert_eq!(inst.gui_changes.pop(), Some(GuiParamChange::GestureBegin(3)));
    assert_eq!(inst.gui_changes.pop(), Some(GuiParamChange::Value(3, 7)));
    assert_eq!(inst.gui_changes.pop(), Some(GuiParamChange::GestureEnd(3)));
    assert_eq!(inst.gui_changes.pop(), None);
    // The host is asked back once until it came.
    let second = editor_automate(&mut inst, 3, 8, false, true);
    assert!(!second.flush && !second.callback);
    assert!(inst.needs_rescan);
}

#[test]
fn sizes_are_asked_of_hosts_that_take_them() {
    assert!(can_request_resize(true, true, Some(true)));
    assert!(!can_request_resize(true, true, Some(false)));
    assert!(!can_request_resize(true, true, None));
    assert!(!can_request_resize(false, true, Some(true)));
    assert!(!can_request_resize(true, false, Some(true)));
    assert!(au_host::editor_request_resize(true, 10, 10));
    assert!(!au_host::editor_request_resize(false, 10, 10));
    assert!(!au_host::editor_request_resize(true, 0, 10));
    assert!(!au_host::editor_request_resize(true, 10, 0));
}

#[test]
fn bytes_of_an_editor_wait_for_the_next_block() {
    let mut au = AuInstance::new(vec![], 32, 0, 0);
    au_host::editor_set_state(&mut au, vec![1, 2]);
    let waiting = au.pending_state.pop().unwrap();
    assert!(waiting.params.is_empty());
    assert_eq!(waiting.extra, Some(vec![1, 2]));
    let mut other = AaxInstance::new(0, 0);
    aax::editor_set_state(&mut other, vec![3]);
    assert_eq!(other.pending_state.pop().unwrap().extra, Some(vec![3]));
    let mut queue = StateLoadQueue::new();
    receive_extra(&mut queue, vec![4]);
    assert_eq!(queue.pop().unwrap().extra, Some(vec![4]));
}

#[test]
fn a_received_state_sets_its_values_at_once() {
    let mut plugin = Quiet { seen: vec![], restored: 0 };
    let mut queue = StateLoadQueue::new();
    assert!(!receive_state(&mut queue, &mut plugin, None));
    assert!(queue.pop().is_none());
    let state = DeserializedState { params: vec![(1, 2), (3, 4)], extra: None };
    apply_params(&mut plugin, &state);
    assert_eq!(plugin.restored, 2);
    assert!(receive_state(&mut queue, &mut plugin, Some(state)));
    assert_eq!(plugin.restored, 4);
    assert_eq!(queue.pop().unwrap().params, vec![(1, 2), (3, 4)]);
}

#[test]
fn aax_blocks_have_no_position_in_seconds() {
    let mut inst = AaxInstance::new(0, 0);
    let mut plugin = Quiet { seen: vec![], restored: 0 };
    aax::reset(&mut inst, &mut plugin);
    let transport = HostTransport {
        valid: 1,
        playing: 1,
        recording: 0,
        loop_active: 0,
        time_sig_num: 300,
        time_sig_den: -4,
        tempo: 90.0f64.to_bits(),
        position_samples: 44_100,
        position_seconds: 1.0f64.to_bits(),
        position_beats: 1.5f64.to_bits(),
        bar_start_beats: 0,
        loop_start_beats: 0,
        loop_end_beats: 0,
    };
    let result = aax::process(&mut inst, &mut plugin, 64, &vec![], &Some(transport));
    let seen = plugin.seen[0];
    assert_eq!(result.transport, Some(seen));
    assert!(seen.playing);
    assert_eq!((seen.time_sig_num, seen.time_sig_den), (255, 0));
    assert_eq!(seen.position_samples, 44_100);
    assert_eq!(seen.position_seconds, 0);
    assert_eq!(seen.position_beats, 1.5f64.to_bits());
}

#[test]
fn a_value_text_ends_in_a_nul() {
    let mut buffer = vec![7u8; 4];
    assert!(write_value_text(Some("3.25 dB"), &mut buffer));
    assert_eq!(buffer, b"3.2\0");
    assert!(!write_value_text(None, &mut buffer));
    assert_eq!(buffer, b"3.2\0");
    assert!(!write_value_text(Some("x"), &mut vec![]));
}
