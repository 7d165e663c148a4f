use crab::proxy::{Proxies, ProxyStat};

fn lines(items: &[&str]) -> Vec<String> {
    items.iter().map(|s| s.to_string()).collect()
}

#[test]
fn proxies() {
    let proxies = Proxies::from_lines(&lines(&["socks5://127.1", "socks5://127.2"]));
    assert_eq!(proxies.len(), 2);
}

#[test]
fn proxy_list_skips_blank_lines_and_trims() {
    let proxies = Proxies::from_lines(&lines(&["  http://a:1  ", "", "   ", "\thttp://b:2\r"]));
    let stat = proxies.stat();
    assert_eq!(stat.len(), 2);
    assert_eq!(stat[0].0, "http://a:1");
    assert_eq!(stat[1].0, "http://b:2");
    assert_eq!(stat[0].1.requests, 0);
    assert_eq!(stat[0].1.successfull_requests, 0);
    assert!(!stat[0].1.is_dead());
}

#[test]
fn empty_pool_selects_nothing() {
    let mut proxies = Proxies::default();
    assert_eq!(proxies.len(), 0);
    assert!(proxies.next().is_none());
    let mut proxies = Proxies::from_lines(&lines(&["", "  "]));
    assert!(proxies.next().is_none());
}

#[test]
fn add_ignores_empty_endpoint() {
    let mut proxies = Proxies::new();
    proxies.add("");
    assert_eq!(proxies.len(), 0);
    proxies.add("http://p");
    assert_eq!(proxies.len(), 1);
    assert_eq!(proxies.get(0), ("http://p".to_string(), 0));
}

#[test]
fn reports_count_requests() {
    let mut proxies = Proxies::from_lines(&lines(&["http://a", "http://b"]));
    proxies.proxy_succeseed(0);
    proxies.proxy_succeseed(0);
    assert!(!proxies.proxy_failed(0));
    assert!(!proxies.proxy_failed(1));
    let stat = proxies.stat();
    assert_eq!(stat[0].1.requests, 3);
    assert_eq!(stat[0].1.successfull_requests, 2);
    assert_eq!(stat[1].1.requests, 1);
    assert_eq!(stat[1].1.successfull_requests, 0);
}

#[test]
fn report_for_unknown_proxy_changes_nothing() {
    let mut proxies = Proxies::from_lines(&lines(&["http://a"]));
    assert!(!proxies.proxy_failed(7));
    proxies.proxy_succeseed(7);
    let stat = proxies.stat();
    assert_eq!(stat.len(), 1);
    assert_eq!(stat[0].1.requests, 0);
}

#[test]
fn second_failure_in_a_row_finds_proxy_dead_once() {
    let mut proxies = Proxies::from_lines(&lines(&["http://a"]));
    assert!(!proxies.proxy_failed(0)); // -1
    assert!(proxies.proxy_failed(0)); // -2, found dead
    assert!(!proxies.proxy_failed(0)); // stays at -2
    assert!(proxies.stat()[0].1.is_dead());
    assert_eq!(proxies.alive(), Vec::<usize>::new());
}

#[test]
fn health_saturates_at_both_ends() {
    let mut proxies = Proxies::from_lines(&lines(&["http://a"]));
    for _ in 0..10 {
        proxies.proxy_succeseed(0);
    }
    // From 2, two failures lead to 0 and four to -2.
    proxies.proxy_failed(0);
    proxies.proxy_failed(0);
    proxies.proxy_failed(0);
    assert!(!proxies.stat()[0].1.is_dead());
    assert!(proxies.proxy_failed(0));
    assert!(proxies.stat()[0].1.is_dead());
    for _ in 0..10 {
        proxies.proxy_failed(0);
    }
    // From -2, one success revives the proxy.
    proxies.proxy_succeseed(0);
    assert!(!proxies.stat()[0].1.is_dead());
    assert_eq!(proxies.alive(), vec![0]);
}

#[test]
fn selection_avoids_dead_proxies() {
    let mut proxies = Proxies::from_lines(&lines(&["http://a", "http://b"]));
    proxies.proxy_failed(0);
    proxies.proxy_failed(0);
    proxies.proxy_succeseed(1);
    proxies.proxy_succeseed(1);
    for _ in 0..100 {
        let (endpoint, id) = proxies.next().unwrap();
        assert_eq!(id, 1);
        assert_eq!(endpoint, "http://b");
    }
}

#[test]
fn selection_falls_back_to_dead_proxies() {
    let mut proxies = Proxies::from_lines(&lines(&["http://a", "http://b"]));
    for id in 0..2 {
        proxies.proxy_failed(id);
        proxies.proxy_failed(id);
    }
    let mut seen = [false, false];
    for _ in 0..200 {
        let (endpoint, id) = proxies.next().unwrap();
        assert!(id < 2);
        assert_eq!(endpoint, ["http://a", "http://b"][id]);
        seen[id] = true;
    }
    assert!(seen[0] && seen[1]);
}

#[test]
fn selection_spreads_over_alive_proxies() {
    let mut proxies = Proxies::from_lines(&lines(&["http://a", "http://b", "http://c"]));
    proxies.proxy_failed(1);
    proxies.proxy_failed(1);
    assert_eq!(proxies.alive(), vec![0, 2]);
    assert_eq!(proxies.all(), vec![0, 1, 2]);
    let mut seen = [false, false, false];
    for _ in 0..200 {
        let (_, id) = proxies.next().unwrap();
        seen[id] = true;
    }
    assert_eq!(seen, [true, false, true]);
}

#[test]
fn fresh_stat_is_zero() {
    let stat = ProxyStat::default();
    assert_eq!(stat.requests, 0);
    assert_eq!(stat.successfull_requests, 0);
    assert!(!stat.is_dead());
}
