use http_server::router::{check_route_path, route_key, route_keys, RouteMatch, RouteTable};
use http_server::table::method_names;
use http_server::{GET, HEAD, POST};

#[test]
fn routing_key_drops_query() {
    assert_eq!(route_key("GET", "/a/b?x=1&y=2"), "GET/a/b");
    assert_eq!(route_key("POST", "/a"), "POST/a");
    assert_eq!(route_key("GET", "/?"), "GET/");
}

#[test]
fn exact_then_wildcard_then_not_found() {
    let mut t = RouteTable::new();
    assert_eq!(t.insert("GET/".to_string()), 0);
    assert_eq!(t.insert("GET/wildcard/*".to_string()), 1);
    assert_eq!(t.insert("NEVER_FOUND_FOR_ALL".to_string()), 2);
    assert_eq!(t.insert("GET/".to_string()), 0);
    assert_eq!(t.keys.len(), 3);
    assert!(matches!(t.find("GET/"), RouteMatch::Exact(0)));
    assert!(matches!(t.find(&route_key("GET", "/wildcard/x/y")), RouteMatch::Wildcard(1)));
    assert!(matches!(t.find(&route_key("GET", "/other")), RouteMatch::NotFound));
    assert!(matches!(t.find("GET/wildcard"), RouteMatch::NotFound));
    assert!(matches!(t.find("POST/wildcard/x"), RouteMatch::NotFound));
}

#[test]
fn root_wildcard_cannot_be_registered() {
    assert!(!check_route_path("/*"));
    assert!(!check_route_path("  /* "));
    assert!(check_route_path("/a/*"));
    assert!(check_route_path("/"));
}

#[test]
fn one_key_per_method() {
    let keys = route_keys(&method_names(&[GET, HEAD, POST]), "/download");
    assert_eq!(keys, vec!["GET/download", "HEAD/download", "POST/download"]);
}
