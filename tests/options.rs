use cdc::{CFOptions, ReadOptions, WriteOptions};

#[test]
fn write_options_sync() {
    let mut opts = WriteOptions::new();
    assert!(!opts.sync());
    opts.set_sync(true);
    assert!(opts.sync());
    assert!(!WriteOptions::default().sync());
    let _ = ReadOptions::new();
    let _ = CFOptions::new();
}

use cdc::table_properties::{CFHandleExt, EngineError, Range, TablePropertiesCollection, TablePropertiesExt};
use cdc::{IterOptions, KeyBound};

#[test]
fn iter_options_bounds_and_flags() {
    let mut opts = IterOptions::new(Some(KeyBound::from_vec(b"a".to_vec())), None, true);
    assert!(opts.fill_cache());
    assert!(opts.total_order_seek_used());
    assert_eq!(opts.lower_bound(), Some(&b"a"[..]));
    assert_eq!(opts.upper_bound(), None);
    opts.set_upper_bound(b"key", 2);
    opts.set_upper_bound_prefix(b"zz");
    assert_eq!(opts.upper_bound(), Some(&b"zzkey"[..]));
    opts.set_lower_bound_prefix(b"");
    assert_eq!(opts.lower_bound(), Some(&b"a"[..]));
    opts.set_vec_lower_bound(b"b".to_vec());
    assert_eq!(opts.lower_bound(), Some(&b"b"[..]));
    opts.set_lower_bound(b"c", 0);
    assert_eq!(opts.lower_bound(), Some(&b"c"[..]));
    opts.set_vec_upper_bound(b"d".to_vec());
    assert_eq!(opts.upper_bound(), Some(&b"d"[..]));
    opts.set_key_only(true);
    assert!(opts.key_only());
    opts.set_fill_cache(false);
    assert!(!opts.fill_cache());
    opts.set_prefix_same_as_start(true);
    assert!(opts.prefix_same_as_start());
    let opts = opts.use_prefix_seek();
    assert!(!opts.total_order_seek_used());
    let d = IterOptions::default();
    assert!(d.total_order_seek_used() && !d.fill_cache() && !d.key_only() && d.lower_bound().is_none());
}

struct Props(Vec<(Vec<u8>, Vec<u8>)>);

impl TablePropertiesCollection for Props {}

struct Engine;

impl CFHandleExt for Engine {
    type CFHandle = String;

    fn cf_handle(&self, name: &str) -> Result<&String, EngineError> {
        if name == "default" {
            Ok(&DEFAULT_CF)
        } else {
            Err(EngineError::CFName(name.to_string()))
        }
    }
}

static DEFAULT_CF: String = String::new();

impl TablePropertiesExt for Engine {
    type TablePropertiesCollection = Props;

    fn get_properties_of_tables_in_range(&self, _cf: &String, ranges: &[Range]) -> Result<Props, EngineError> {
        Ok(Props(ranges.iter().map(|r| (r.start_key.to_vec(), r.end_key.to_vec())).collect()))
    }
}

#[test]
fn range_properties_ask_for_one_range() {
    let props = Engine.get_range_properties_cf("default", b"a", b"z").unwrap();
    assert_eq!(props.0, vec![(b"a".to_vec(), b"z".to_vec())]);
    assert!(matches!(Engine.get_range_properties_cf("raft", b"a", b"z"), Err(EngineError::CFName(_))));
}
