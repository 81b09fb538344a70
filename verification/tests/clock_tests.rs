use sitewatch::clock::{DateTime, Utc};
use std::time::UNIX_EPOCH;

#[test]
fn now_is_after_the_epoch() {
    let t: DateTime<Utc> = DateTime::now();
    let st = t.as_system_time();
    assert!(st.duration_since(UNIX_EPOCH).unwrap().as_secs() > 0);
}
