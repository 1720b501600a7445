use std::sync::Arc;
use std::sync::Mutex;

use folder_stats::stats::StatsTable;

#[test]
fn concurrent_creations_lose_no_update() {
    let table = Arc::new(Mutex::new(StatsTable::new()));
    let rt = tokio::runtime::Builder::new_multi_thread()
        .worker_threads(4)
        .build()
        .unwrap();
    rt.block_on(async {
        let mut handles = Vec::new();
        for w in 0..8u64 {
            let shared = table.clone();
            handles.push(tokio::spawn(async move {
                let folder = format!("f{}", w % 4);
                for _ in 0..100 {
                    shared.lock().unwrap().apply_creation(folder.clone(), 3);
                }
            }));
        }
        for h in handles {
            h.await.unwrap();
        }
    });
    // 8 workers over 4 folders: each folder saw 200 files of 3 bytes
    let t = table.lock().unwrap();
    let mut total = 0u64;
    for k in 0..4 {
        let s = t.get(&format!("f{}", k)).unwrap();
        assert_eq!(s.file_count, 200);
        assert_eq!(s.size, 600);
        total += s.size;
    }
    assert_eq!(total, 8 * 100 * 3);
}
