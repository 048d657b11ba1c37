use std::sync::{Arc, Mutex};
use webkernel::counter::Counter;

#[test]
fn counter_operations() {
    let mut c = Counter::new(1);
    assert_eq!(c.get(), 1);
    c.increment();
    assert_eq!(c.get(), 2);
    c.set(41);
    assert_eq!(c.get(), 41);
    c.increment();
    assert_eq!(c.get(), 42);
    c.reset();
    assert_eq!(c.get(), 0);
}

#[test]
fn concurrent_increments_lose_no_update() {
    let tasks: u32 = 64;
    let per_task: u32 = 25;
    let initial: u32 = 7;
    let counter = Arc::new(Mutex::new(Counter::new(initial)));
    let rt = tokio::runtime::Builder::new_multi_thread()
        .worker_threads(8)
        .build()
        .expect("runtime builds");
    rt.block_on(async {
        let mut handles = Vec::new();
        for _ in 0..tasks {
            let shared = Arc::clone(&counter);
            handles.push(tokio::spawn(async move {
                for _ in 0..per_task {
                    let mut guard = shared.lock().unwrap();
                    guard.increment();
                }
            }));
        }
        for h in handles {
            h.await.unwrap();
        }
    });
    let value = counter.lock().unwrap().get();
    assert_eq!(value, initial + tasks * per_task);
}
