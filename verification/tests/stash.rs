use std::collections::{BTreeMap, HashMap};
use torrent_scraper::record::TorrentInfo;
use torrent_scraper::stash::Stash;

type Chunk = BTreeMap<usize, Option<TorrentInfo>>;

fn item(name: &str) -> TorrentInfo {
    TorrentInfo {
        name: String::from(name),
        description: String::new(),
        infohash: String::from("0123456789ABCDEF0123456789ABCDEF01234567"),
        category: String::from("Movies"),
        ty: String::from("HD"),
        language: String::from("English"),
        total_size: 1024,
        uploader: String::from("someone"),
        downloads: 5,
        last_checked_ts: 10,
        uploaded_ts: 5,
        seeders: 0,
        leechers: 0,
        scraped_ts: 20,
        tmdb_id: None,
        series_id: None,
        images: Vec::new(),
        trackers: Vec::new(),
        files: Vec::new(),
        comments: Vec::new(),
    }
}

/// Storage kept in memory, and the stash over it.
struct Store {
    disk: HashMap<usize, Chunk>,
    stash: Stash,
}

impl Store {
    fn fresh() -> Store {
        let mut disk = HashMap::new();
        disk.insert(0, Chunk::new());
        Store::reopen(disk)
    }

    fn reopen(disk: HashMap<usize, Chunk>) -> Store {
        let first = disk.get(&0).cloned().unwrap();
        Store { disk, stash: Stash::open(first) }
    }

    fn flush(&mut self) {
        let (id, chunk) = self.stash.save();
        self.disk.insert(id, chunk.clone());
    }

    fn reach(&mut self, i: usize) {
        if let Some(chunk_id) = self.stash.load_item_chunk(i) {
            self.flush();
            let chunk = self.disk.get(&chunk_id).cloned().unwrap_or_default();
            self.stash.load_chunk(chunk_id, chunk);
        }
    }

    fn insert(&mut self, i: usize, info: Option<TorrentInfo>) {
        self.reach(i);
        assert_eq!(self.stash.insert(i, info), Ok(()));
    }

    fn contains(&mut self, i: usize) -> bool {
        self.reach(i);
        self.stash.contains_key(&i).unwrap()
    }
}

#[test]
fn an_id_is_looked_at_only_in_its_own_chunk() {
    let mut stash = Stash::open(Chunk::new());
    assert_eq!(stash.load_item_chunk(0), None);
    assert_eq!(stash.load_item_chunk(999), None);
    assert_eq!(stash.load_item_chunk(1000), Some(1));
    assert_eq!(stash.load_item_chunk(5559585), Some(5559));
    assert_eq!(stash.contains_key(&999), Some(false));
    assert_eq!(stash.contains_key(&1000), None);
    assert_eq!(stash.insert(1000, None), Err(None));
    assert_eq!(stash.insert(1000, Some(item("a"))), Err(Some(item("a"))));
    assert_eq!(stash.save().1.len(), 0);
    assert_eq!(stash.insert(999, Some(item("a"))), Ok(()));
    assert_eq!(stash.contains_key(&999), Some(true));
    assert_eq!(stash.contains_key(&998), Some(false));
    assert_eq!(stash.save().0, 0);
    assert_eq!(stash.save().1.get(&999), Some(&Some(item("a"))));
}

#[test]
fn loading_a_chunk_replaces_the_resident_one() {
    let mut stash = Stash::open(Chunk::new());
    assert_eq!(stash.insert(7, None), Ok(()));
    let mut second = Chunk::new();
    second.insert(1001, Some(item("b")));
    stash.load_chunk(1, second);
    assert_eq!(stash.save().0, 1);
    assert_eq!(stash.save().1.len(), 1);
    assert_eq!(stash.contains_key(&1001), Some(true));
    assert_eq!(stash.contains_key(&1002), Some(false));
    assert_eq!(stash.contains_key(&7), None);
    assert_eq!(stash.load_item_chunk(7), Some(0));
    assert_eq!(stash.load_item_chunk(1500), None);
}

#[test]
fn inserting_twice_survives_a_restart() {
    let mut store = Store::fresh();
    store.insert(1234, Some(item("twice")));
    store.insert(1234, Some(item("twice")));
    store.flush();
    let mut again = Store::reopen(store.disk);
    assert!(again.contains(1234));
    assert_eq!(again.stash.save().1.get(&1234), Some(&Some(item("twice"))));
    assert_eq!(again.stash.save().1.len(), 1);
    assert!(!again.contains(1235));
    assert!(!again.contains(234));
    assert!(!again.contains(0));
}

#[test]
fn the_last_record_for_an_id_is_kept() {
    let mut store = Store::fresh();
    store.insert(42, Some(item("first")));
    store.insert(42, None);
    store.insert(43, Some(item("other")));
    store.flush();
    let mut again = Store::reopen(store.disk);
    assert!(again.contains(42));
    assert_eq!(again.stash.save().1.get(&42), Some(&None));
    assert_eq!(again.stash.save().1.get(&43), Some(&Some(item("other"))));
}

#[test]
fn a_restart_loses_what_was_not_written() {
    let mut store = Store::fresh();
    store.insert(10, Some(item("kept")));
    store.flush();
    store.insert(11, Some(item("lost")));
    let mut again = Store::reopen(store.disk);
    assert!(again.contains(10));
    assert!(!again.contains(11));
}

#[test]
fn a_tombstone_counts_as_visited() {
    let mut store = Store::fresh();
    store.insert(100, None);
    assert!(store.contains(100));
    assert!(!store.contains(101));
}

#[test]
fn adjacent_ids_across_a_boundary_go_to_two_chunks() {
    let mut store = Store::fresh();
    store.insert(999, Some(item("low")));
    store.insert(1000, Some(item("high")));
    store.flush();
    assert_eq!(store.disk.len(), 2);
    let low = store.disk.get(&0).unwrap();
    let high = store.disk.get(&1).unwrap();
    assert_eq!(low.keys().copied().collect::<Vec<usize>>(), vec![999]);
    assert_eq!(high.keys().copied().collect::<Vec<usize>>(), vec![1000]);
    assert_eq!(low.get(&999), Some(&Some(item("low"))));
    assert_eq!(high.get(&1000), Some(&Some(item("high"))));
}

#[test]
fn crossing_a_boundary_loses_nothing() {
    let mut store = Store::fresh();
    store.insert(999, None);
    assert!(!store.contains(1000));
    assert!(store.contains(999));
    store.insert(2500, Some(item("far")));
    assert!(store.contains(999));
    assert!(store.contains(2500));
    assert!(!store.contains(1999));
}
