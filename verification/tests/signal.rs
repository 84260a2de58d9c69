use signals::{AlreadyConnected, Callable, Signal};
use std::sync::{Arc, Mutex};

fn quiet() -> Callable<i32> {
    Callable::new(|&x: &i32| {
        let _ = x;
    })
}

/// Calls each connected callable with `value`, in the order the signal
/// gives them.
fn deliver<T>(signal: &Signal<T>, value: &T) {
    for callable in signal.callables() {
        (callable.consumer().shared.lock().unwrap())(value);
    }
}

#[test]
fn connect_single() {
    let mut signal = Signal::<i32>::new();
    let callable = Callable::new(|&x: &i32| {
        let _ = x;
    });
    assert!(signal.connect(callable).is_ok());
    assert_eq!(signal.len(), 1);
}

#[test]
fn connect_multiple() {
    let mut signal = Signal::<i32>::new();
    for i in 0..3 {
        let callable = Callable::new(move |&x: &i32| {
            let _ = (i, x);
        });
        assert!(signal.connect(callable).is_ok());
    }
    assert_eq!(signal.len(), 3);
}

#[test]
fn connect_same_callable_twice() {
    let mut signal = Signal::<i32>::new();
    let callable = Callable::new(|&x: &i32| {
        let _ = x;
    });
    assert!(signal.connect(callable.clone()).is_ok());
    assert_eq!(signal.connect(callable), Err(AlreadyConnected));
    assert_eq!(signal.len(), 1);
}

#[test]
fn empty_returns_true_on_new_signal() {
    let signal = Signal::<i32>::new();
    assert!(signal.is_empty());
}

#[test]
fn duplicate_returns_err() {
    let mut signal = Signal::<i32>::new();
    let callable = Callable::new(|&x: &i32| {
        let _ = x;
    });
    signal.connect(callable.clone()).ok();
    assert_eq!(signal.connect(callable), Err(AlreadyConnected));
}

#[test]
fn len_unchanged_after_duplicate_attempt() {
    let mut signal = Signal::<i32>::new();
    let callable = Callable::new(|&x: &i32| {
        let _ = x;
    });
    signal.connect(callable.clone()).ok();
    assert!(!signal.is_empty());

    signal.connect(Callable::new(|_| {})).ok();
    assert!(!signal.is_empty());

    assert_eq!(signal.connect(callable), Err(AlreadyConnected));
    assert!(!signal.is_empty());
}

#[test]
fn len_after_connects() {
    let mut signal = Signal::<i32>::new();
    for i in 0..5 {
        let callable = Callable::new(move |&x: &i32| {
            let _ = (i, x);
        });
        assert!(signal.connect(callable).is_ok());
        assert_eq!(signal.len(), i + 1);
    }
}

#[test]
fn not_connected_by_default() {
    let signal = Signal::<i32>::new();
    let callable = Callable::new(|&x: &i32| {
        let _ = x;
    });
    assert!(!signal.is_connected(&callable));
}

#[test]
fn connected_returns_true() {
    let mut signal = Signal::<i32>::new();
    let callable = Callable::new(|&x: &i32| {
        let _ = x;
    });
    signal.connect(callable.clone()).ok();
    assert!(signal.is_connected(&callable));
}

#[test]
fn different_callable_returns_false() {
    let mut signal = Signal::<i32>::new();
    let callable1 = Callable::new(|&x: &i32| {
        let _ = x;
    });
    let callable2 = Callable::new(|&x: &i32| {
        let _ = x + 1;
    });
    assert!(signal.connect(callable1).is_ok());
    assert!(!signal.is_connected(&callable2));
}

#[test]
fn clone_is_same_connection() {
    let mut signal = Signal::<i32>::new();
    let callable = Callable::new(|&x: &i32| {
        let _ = x;
    });
    assert!(signal.connect(callable.clone()).is_ok());
    assert!(signal.is_connected(&callable));

    let cloned = callable.clone();
    assert!(signal.is_connected(&cloned));
}

#[test]
fn disconnect_existing_returns_true() {
    let mut signal = Signal::<i32>::new();
    let callable = Callable::new(|&x: &i32| {
        let _ = x;
    });
    signal.connect(callable.clone()).ok();

    assert!(signal.disconnect(&callable));
}

#[test]
fn disconnect_non_connected_returns_false() {
    let mut signal = Signal::<i32>::new();
    let callable = Callable::new(|&x: &i32| {
        let _ = x;
    });

    assert!(!signal.disconnect(&callable));
}

#[test]
fn disconnect_decreases_len() {
    let mut signal = Signal::<i32>::new();
    let callable1 = Callable::new(|&x: &i32| {
        let _ = x;
    });
    let callable2 = Callable::new(|&x: &i32| {
        let _ = x;
    });

    signal.connect(callable1.clone()).ok();
    signal.connect(callable2).ok();
    assert_eq!(signal.len(), 2);

    signal.disconnect(&callable1);
    assert_eq!(signal.len(), 1);
}

#[test]
fn disconnect_cloned_callable_removes_original() {
    let mut signal = Signal::<i32>::new();
    let callable = Callable::new(|&x: &i32| {
        let _ = x;
    });
    signal.connect(callable.clone()).ok();

    assert!(signal.disconnect(&callable));
    assert_eq!(signal.len(), 0);
}

#[test]
fn default_signal_is_empty() {
    let signal: Signal<i32> = Signal::default();
    assert!(signal.is_empty());
    assert_eq!(signal.len(), 0);
    assert!(signal.callables().is_empty());
}

#[test]
fn callables_follow_connection_order() {
    let mut signal = Signal::<i32>::new();
    let a = quiet();
    let b = quiet();
    let c = quiet();
    signal.connect(a.clone()).ok();
    signal.connect(b.clone()).ok();
    signal.connect(c.clone()).ok();
    assert_eq!(signal.connect(b.clone()), Err(AlreadyConnected));
    let order: Vec<usize> = signal.callables().iter().map(|x| x.identity()).collect();
    assert_eq!(order, vec![a.identity(), b.identity(), c.identity()]);
    assert!(signal.callables()[1] == b);
}

#[test]
fn disconnect_keeps_order_of_the_others() {
    let mut signal = Signal::<i32>::new();
    let a = quiet();
    let b = quiet();
    let c = quiet();
    signal.connect(a.clone()).ok();
    signal.connect(b.clone()).ok();
    signal.connect(c.clone()).ok();
    assert!(signal.disconnect(&b));
    let order: Vec<usize> = signal.callables().iter().map(|x| x.identity()).collect();
    assert_eq!(order, vec![a.identity(), c.identity()]);
    assert!(!signal.disconnect(&b));
    assert_eq!(signal.len(), 2);
}

#[test]
fn disconnect_undoes_connect() {
    let mut signal = Signal::<i32>::new();
    let a = quiet();
    let b = quiet();
    signal.connect(a.clone()).ok();
    assert!(signal.connect(b.clone()).is_ok());
    assert!(signal.disconnect(&b));
    let order: Vec<usize> = signal.callables().iter().map(|x| x.identity()).collect();
    assert_eq!(order, vec![a.identity()]);
    assert!(!signal.is_connected(&b));
    assert!(signal.connect(b.clone()).is_ok());
    assert!(signal.is_connected(&b));
}

#[test]
fn clones_are_equal_and_distinct_callables_are_not() {
    let a = quiet();
    let b = quiet();
    assert!(a.clone() == a);
    assert_eq!(a.clone().identity(), a.identity());
    assert!(a != b);
    assert_ne!(a.identity(), b.identity());
}

#[test]
fn callables_receive_values_in_connection_order() {
    let mut signal = Signal::<i32>::new();
    let order = Arc::new(Mutex::new(Vec::new()));
    for i in 0..5 {
        let o = Arc::clone(&order);
        signal
            .connect(Callable::new(move |x: &i32| {
                o.lock().unwrap().push((i, *x));
            }))
            .ok();
    }
    deliver(&signal, &100);
    assert_eq!(
        *order.lock().unwrap(),
        vec![(0, 100), (1, 100), (2, 100), (3, 100), (4, 100)]
    );
}

#[test]
fn disconnected_callable_receives_nothing() {
    let mut signal = Signal::<String>::new();
    let received = Arc::new(Mutex::new(Vec::new()));
    let r = Arc::clone(&received);
    let kept = Callable::new(move |x: &String| {
        r.lock().unwrap().push(x.clone());
    });
    let gone_count = Arc::new(Mutex::new(0));
    let g = Arc::clone(&gone_count);
    let gone = Callable::new(move |_: &String| {
        *g.lock().unwrap() += 1;
    });
    signal.connect(kept).ok();
    signal.connect(gone.clone()).ok();
    deliver(&signal, &String::from("hello"));
    assert!(signal.disconnect(&gone));
    deliver(&signal, &String::from("again"));
    assert_eq!(*received.lock().unwrap(), vec![String::from("hello"), String::from("again")]);
    assert_eq!(*gone_count.lock().unwrap(), 1);
}

#[test]
fn already_connected_message() {
    assert_eq!(AlreadyConnected.message(), "callable already connected");
}

fn is_send<T: Send>() {}

#[test]
fn callable_is_send() {
    is_send::<Callable<i32>>();
}

#[test]
fn signal_is_send() {
    is_send::<Signal<i32>>();
}

#[test]
fn disconnect_callable_stops_receiving_values() {
    let mut signal = Signal::<i32>::new();
    let received = Arc::new(Mutex::new(Vec::new()));
    let received_clone = Arc::clone(&received);

    signal
        .connect(Callable::new(move |x: &i32| {
            received_clone.lock().unwrap().push(*x);
        }))
        .ok();

    deliver(&signal, &10);
    assert_eq!(*received.lock().unwrap(), vec![10]);

    let callable = Callable::new(|&x: &i32| {
        let _ = x;
    });
    signal.connect(callable.clone()).ok();

    signal.disconnect(&callable);
    deliver(&signal, &20);

    assert_eq!(*received.lock().unwrap(), vec![10, 20]);
}

#[test]
fn new_identity_is_not_zero_and_apart_from_live_ones() {
    let mut signal = Signal::<i32>::new();
    let a = quiet();
    assert_ne!(a.identity(), 0);
    signal.connect(a.clone()).ok();
    let b = Callable::new_apart(|_: &i32| {}, signal.callables());
    assert_ne!(b.identity(), 0);
    assert_ne!(b.identity(), a.identity());
    assert!(!signal.is_connected(&b));
    assert!(signal.connect(b).is_ok());
    assert_eq!(signal.len(), 2);
}

#[test]
fn connected_callables_are_the_ones_passed_in() {
    let mut signal = Signal::<i32>::new();
    let hits = Arc::new(Mutex::new(0));
    let h = Arc::clone(&hits);
    let counting = Callable::new(move |x: &i32| {
        *h.lock().unwrap() += *x;
    });
    signal.connect(counting.clone()).ok();
    assert!(signal.callables()[0] == counting);
    deliver(&signal, &3);
    (counting.consumer().shared.lock().unwrap())(&4);
    assert_eq!(*hits.lock().unwrap(), 7);
}
