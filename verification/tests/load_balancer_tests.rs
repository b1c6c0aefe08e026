use rust_load_balancer::config::LoadBalancerAlgorithm;
use rust_load_balancer::load_balancer::ip_hash::fnv1a_hash;
use rust_load_balancer::load_balancer::{
    create_load_balancer, IpHashBalancer, LeastConnectionsBalancer, LoadBalancer, RandomBalancer,
    RoundRobinBalancer, WeightedBalancer,
};
use rust_load_balancer::proxy::Backend;
use url::Url;

fn backend_on(port: u16, weight: u32) -> Backend {
    Backend::new(Url::parse(&format!("http://b{}:{}", port, port)).unwrap(), weight, 100)
}

fn three() -> Vec<Backend> {
    vec![backend_on(1, 1), backend_on(2, 1), backend_on(3, 1)]
}

#[test]
fn test_round_robin_distribution() {
    let backends = three();
    let candidates: Vec<&Backend> = backends.iter().collect();
    let mut lb = RoundRobinBalancer::new();
    let mut seen = Vec::new();
    for _ in 0..9 {
        seen.push(lb.select_backend(&candidates, None).unwrap().id().clone());
    }
    assert_eq!(
        seen,
        vec!["b1:1", "b2:2", "b3:3", "b1:1", "b2:2", "b3:3", "b1:1", "b2:2", "b3:3"]
    );
}

#[test]
fn round_robin_shares_ten_requests_among_three() {
    let backends = three();
    let candidates: Vec<&Backend> = backends.iter().collect();
    let mut lb = RoundRobinBalancer::new();
    let mut counts = [0usize; 3];
    for _ in 0..10 {
        let id = lb.select_backend(&candidates, None).unwrap().id().clone();
        let at = candidates.iter().position(|b| *b.id() == id).unwrap();
        counts[at] += 1;
    }
    assert_eq!(counts, [4, 3, 3]);
}

#[test]
fn next_index_counts_modulo_the_candidates() {
    let mut lb = RoundRobinBalancer::new();
    assert_eq!(lb.next_index(4), 0);
    assert_eq!(lb.next_index(4), 1);
    assert_eq!(lb.next_index(2), 0);
    assert_eq!(lb.next_index(5), 3);
}

#[test]
fn no_candidate_no_choice() {
    let none: Vec<&Backend> = Vec::new();
    assert!(RoundRobinBalancer::new().select_backend(&none, None).is_none());
    assert!(LeastConnectionsBalancer::new().select_backend(&none, None).is_none());
    assert!(WeightedBalancer::new().select_backend(&none, None).is_none());
    assert!(RandomBalancer::new().select_backend(&none, None).is_none());
    assert!(IpHashBalancer::new().select_backend(&none, Some("1.2.3.4")).is_none());
    assert!(IpHashBalancer::new().select_backend(&none, None).is_none());
}

#[test]
fn an_empty_round_does_not_use_up_a_turn() {
    let backends = three();
    let candidates: Vec<&Backend> = backends.iter().collect();
    let none: Vec<&Backend> = Vec::new();
    let mut lb = RoundRobinBalancer::new();
    assert!(lb.select_backend(&none, None).is_none());
    assert_eq!(lb.select_backend(&candidates, None).unwrap().id(), "b1:1");
}

#[test]
fn least_connections_takes_the_idlest_and_the_first_of_equals() {
    let mut backends = three();
    backends[0].increment_connections();
    backends[0].increment_connections();
    backends[1].increment_connections();
    backends[2].increment_connections();
    let mut lb = LeastConnectionsBalancer::new();
    {
        let candidates: Vec<&Backend> = backends.iter().collect();
        assert_eq!(lb.select_backend(&candidates, None).unwrap().id(), "b2:2");
        assert_eq!(LeastConnectionsBalancer::least_loaded(&candidates), 1);
    }
    backends[2].decrement_connections();
    {
        let candidates: Vec<&Backend> = backends.iter().collect();
        assert_eq!(lb.select_backend(&candidates, None).unwrap().id(), "b3:3");
    }
    backends[0].decrement_connections();
    backends[0].decrement_connections();
    {
        let candidates: Vec<&Backend> = backends.iter().collect();
        assert_eq!(lb.select_backend(&candidates, None).unwrap().id(), "b1:1");
    }
}

#[test]
fn weighted_choices_are_smooth() {
    let backends = vec![backend_on(1, 5), backend_on(2, 1), backend_on(3, 1)];
    let candidates: Vec<&Backend> = backends.iter().collect();
    let mut lb = WeightedBalancer::new();
    let mut seen = Vec::new();
    for _ in 0..7 {
        seen.push(lb.select_backend(&candidates, None).unwrap().id().clone());
    }
    assert_eq!(seen, vec!["b1:1", "b1:1", "b2:2", "b1:1", "b3:3", "b1:1", "b1:1"]);
    // The cycle starts over.
    assert_eq!(lb.choose_index(&candidates), 0);
    assert_eq!(lb.choose_index(&candidates), 0);
    assert_eq!(lb.choose_index(&candidates), 1);
}

#[test]
fn weighted_choices_follow_the_weights() {
    let backends = vec![backend_on(1, 3), backend_on(2, 2), backend_on(3, 1)];
    let candidates: Vec<&Backend> = backends.iter().collect();
    let mut lb = WeightedBalancer::new();
    let mut counts = [0usize; 3];
    for _ in 0..60 {
        counts[lb.choose_index(&candidates)] += 1;
    }
    assert_eq!(counts, [30, 20, 10]);
}

#[test]
fn weighted_with_equal_weights_takes_turns() {
    let backends = three();
    let candidates: Vec<&Backend> = backends.iter().collect();
    let mut lb = WeightedBalancer::new();
    let picks: Vec<usize> = (0..6).map(|_| lb.choose_index(&candidates)).collect();
    assert_eq!(picks, vec![0, 1, 2, 0, 1, 2]);
}

#[test]
fn fnv1a_matches_its_published_values() {
    assert_eq!(fnv1a_hash(b""), 0xcbf2_9ce4_8422_2325);
    assert_eq!(fnv1a_hash(b"a"), 0xaf63_dc4c_8601_ec8c);
    assert_eq!(fnv1a_hash(b"foobar"), 0x8594_4171_f739_67e8);
}

#[test]
fn ip_hash_is_stable_for_one_client() {
    let backends = three();
    let candidates: Vec<&Backend> = backends.iter().collect();
    let mut lb = IpHashBalancer::new();
    let first = lb.select_backend(&candidates, Some("203.0.113.7")).unwrap().id().clone();
    for _ in 0..5 {
        assert_eq!(*lb.select_backend(&candidates, Some("203.0.113.7")).unwrap().id(), first);
    }
    let at = (fnv1a_hash(b"203.0.113.7") % 3) as usize;
    assert_eq!(first, *candidates[at].id());
    assert_eq!(IpHashBalancer::index_for("203.0.113.7", 3), at);
}

#[test]
fn ip_hash_without_an_address_takes_turns() {
    let backends = three();
    let candidates: Vec<&Backend> = backends.iter().collect();
    let mut lb = IpHashBalancer::new();
    assert_eq!(lb.select_backend(&candidates, None).unwrap().id(), "b1:1");
    assert_eq!(lb.select_backend(&candidates, None).unwrap().id(), "b2:2");
    // A hashed choice does not use up a turn.
    lb.select_backend(&candidates, Some("198.51.100.1"));
    assert_eq!(lb.select_backend(&candidates, None).unwrap().id(), "b3:3");
}

#[test]
fn random_picks_a_candidate() {
    let backends = three();
    let candidates: Vec<&Backend> = backends.iter().collect();
    let mut lb = RandomBalancer::new();
    let mut seen = [false; 3];
    for _ in 0..200 {
        let id = lb.select_backend(&candidates, None).unwrap().id().clone();
        let at = candidates.iter().position(|b| *b.id() == id).unwrap();
        seen[at] = true;
    }
    // Each of three candidates is missed 200 times in a row with
    // probability (2/3)^200.
    assert_eq!(seen, [true, true, true]);
}

#[test]
fn random_pick_is_the_drawn_position() {
    let backends = three();
    let candidates: Vec<&Backend> = backends.iter().collect();
    assert_eq!(RandomBalancer::pick(&candidates, 2).id(), "b3:3");
    assert_eq!(RandomBalancer::pick(&candidates, 0).id(), "b1:1");
}

#[test]
fn strategies_are_known_by_name() {
    assert_eq!(create_load_balancer(LoadBalancerAlgorithm::RoundRobin).name(), "round_robin");
    assert_eq!(
        create_load_balancer(LoadBalancerAlgorithm::LeastConnections).name(),
        "least_connections"
    );
    assert_eq!(create_load_balancer(LoadBalancerAlgorithm::Weighted).name(), "weighted");
    assert_eq!(create_load_balancer(LoadBalancerAlgorithm::Random).name(), "random");
    assert_eq!(create_load_balancer(LoadBalancerAlgorithm::IpHash).name(), "ip_hash");
}

#[test]
fn a_made_balancer_selects_among_the_candidates() {
    let backends = three();
    let candidates: Vec<&Backend> = backends.iter().collect();
    let mut lb = create_load_balancer(LoadBalancerAlgorithm::RoundRobin);
    assert_eq!(lb.select_backend(&candidates, None).unwrap().id(), "b1:1");
    assert_eq!(lb.select_backend(&candidates, None).unwrap().id(), "b2:2");
}
