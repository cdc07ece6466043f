use orpheus::options::ServerOptions;

#[test]
fn options_by_name() {
    let o = ServerOptions::parse("live_reload,no_cache");
    assert!(o.live_reload);
    assert!(o.no_cache);
    assert!(!o.simulate_lag);
    let o = ServerOptions::parse("");
    assert!(!o.live_reload && !o.no_cache && !o.simulate_lag);
    let o = ServerOptions::parse("simulate_lag");
    assert!(o.simulate_lag && !o.no_cache);
}
