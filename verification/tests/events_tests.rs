use o_::events::EventEmitter;
use std::cell::RefCell;
use std::rc::Rc;

type Listener = Box<dyn Fn(&[String])>;

fn recorder(log: &Rc<RefCell<Vec<String>>>, tag: &str) -> Listener {
    let log = Rc::clone(log);
    let tag = tag.to_string();
    Box::new(move |args: &[String]| log.borrow_mut().push(format!("{}:{}", tag, args.join(","))))
}

#[test]
fn emit_calls_listeners_in_order() {
    let log = Rc::new(RefCell::new(Vec::new()));
    let mut e: EventEmitter<Listener> = EventEmitter::new();
    assert!(e.on("data", recorder(&log, "a")).is_none());
    assert!(e.once("data", recorder(&log, "b")).is_none());
    assert!(e.on("end", recorder(&log, "c")).is_none());
    assert!(e.emit("data", &["x".to_string(), "y".to_string()]));
    assert!(!e.emit("missing", &[]));
    assert_eq!(*log.borrow(), vec!["a:x,y".to_string(), "b:x,y".to_string()]);
    assert_eq!(e.listener_count("data"), 2);
    assert_eq!(e.listener_count("none"), 0);
    assert_eq!(e.event_names(), vec!["data".to_string(), "end".to_string()]);
}

#[test]
fn removing_listeners() {
    let log = Rc::new(RefCell::new(Vec::new()));
    let mut e: EventEmitter<Listener> = EventEmitter::default();
    e.on("a", recorder(&log, "1"));
    e.on("a", recorder(&log, "2"));
    e.on("b", recorder(&log, "3"));
    e.remove_listener("a", 0);
    assert_eq!(e.listener_count("a"), 1);
    assert!(e.emit("a", &[]));
    assert_eq!(*log.borrow(), vec!["1:".to_string()]);
    e.remove_listener("a", 0);
    assert_eq!(e.listener_count("a"), 0);
    assert!(!e.emit("a", &[]));
    assert_eq!(e.event_names(), vec!["a".to_string(), "b".to_string()]);
    e.remove_all_listeners(Some("a"));
    assert_eq!(e.event_names(), vec!["b".to_string()]);
    e.remove_all_listeners(None);
    assert!(e.event_names().is_empty());
    assert_eq!(e.listener_count("b"), 0);
}

#[test]
fn listener_limit_warns() {
    let log = Rc::new(RefCell::new(Vec::new()));
    let mut e: EventEmitter<Listener> = EventEmitter::new();
    assert_eq!(e.get_max_listeners(), 10);
    e.set_max_listeners(1);
    assert_eq!(e.get_max_listeners(), 1);
    assert!(e.on("x", recorder(&log, "1")).is_none());
    assert_eq!(
        e.on("x", recorder(&log, "2")).as_deref(),
        Some("MaxListenersExceededWarning: Possible EventEmitter memory leak detected. 1 listeners added to 'x'. Use emitter.setMaxListeners() to increase limit.")
    );
    assert_eq!(e.listener_count("x"), 2);
    e.set_max_listeners(0);
    assert!(e.on("y", recorder(&log, "3")).is_some());
}

#[test]
fn every_listener_past_the_limit_is_registered_and_called() {
    let log = Rc::new(RefCell::new(Vec::new()));
    let mut e: EventEmitter<Listener> = EventEmitter::new();
    e.set_max_listeners(2);
    for k in 0..5 {
        e.on("tick", recorder(&log, &k.to_string()));
    }
    assert_eq!(e.listener_count("tick"), 5);
    assert!(e.emit("tick", &["t".to_string()]));
    assert_eq!(*log.borrow(), vec!["0:t", "1:t", "2:t", "3:t", "4:t"]);
}
