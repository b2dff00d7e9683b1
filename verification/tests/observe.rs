//! Events and their sinks.

use std::sync::{Arc, Mutex};

use ai_write::observe::{Event, EventSink, NullSink};

/// Records every event it receives.
#[derive(Default)]
struct Recorder(Mutex<Vec<Event>>);

impl Recorder {
    fn names(&self) -> Vec<&'static str> {
        self.0
            .lock()
            .expect("not poisoned")
            .iter()
            .map(|event| match event {
                Event::SessionStarted { .. } => "SessionStarted",
                Event::RoundStarted { .. } => "RoundStarted",
                Event::Finished { .. } => "Finished",
                _ => "other",
            })
            .collect()
    }
}

impl EventSink for Recorder {
    fn emit(&self, event: Event) {
        self.0.lock().expect("not poisoned").push(event);
    }
}

#[test]
fn null_sink_discards_without_panicking() {
    let sink = NullSink;
    sink.emit(Event::RoundStarted { round: 1 });
    sink.emit(Event::Finished {
        outcome: "done".into(),
    });
}

#[test]
fn recorder_captures_events_in_order() {
    let rec = Recorder::default();
    rec.emit(Event::SessionStarted {
        role: "slave".into(),
        system_excerpt: "You are a focused writing agent".into(),
    });
    rec.emit(Event::RoundStarted { round: 1 });
    rec.emit(Event::Finished {
        outcome: "done".into(),
    });
    assert_eq!(rec.names(), ["SessionStarted", "RoundStarted", "Finished"]);
}

#[test]
fn a_sink_can_be_shared_behind_a_pointer() {
    fn shareable<T: Send + Sync>(_: &T) {}
    let sink: Arc<dyn EventSink> = Arc::new(Recorder::default());
    shareable(&sink);
    Arc::clone(&sink).emit(Event::SlaveReported {
        status: "done".into(),
        summary: "wrote it".into(),
    });
}
