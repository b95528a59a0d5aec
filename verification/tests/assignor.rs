use krabka_coordinator::assignor::{
    select_uniform_member, Assignment, Assignor, MemberSubscription, TopicMetadata,
    UniformAssignor,
};
use krabka_coordinator::ordmap::{OrdMap, OrdSet};

fn tid(b: u8) -> u128 {
    u128::from_be_bytes([b; 16])
}

fn member(id: &str, topics: &[u128]) -> MemberSubscription {
    MemberSubscription {
        member_id: id.into(),
        rack_id: None,
        subscribed_topic_ids: topics.to_vec(),
    }
}

fn member_in_rack(id: &str, rack: &str, topics: &[u128]) -> MemberSubscription {
    MemberSubscription {
        member_id: id.into(),
        rack_id: Some(rack.into()),
        subscribed_topic_ids: topics.to_vec(),
    }
}

fn metadata(counts: &[(u128, i32)], racks: &[((u128, i32), Vec<&str>)]) -> TopicMetadata {
    let mut partitions_per_topic = OrdMap::new();
    for (t, n) in counts {
        partitions_per_topic.insert(*t, *n);
    }
    let mut partition_racks = OrdMap::new();
    for (tp, names) in racks {
        let mut set: OrdSet<String> = OrdSet::new();
        for name in names {
            set.insert((*name).to_string());
        }
        partition_racks.insert(*tp, set);
    }
    TopicMetadata { partitions_per_topic, partition_racks }
}

/// Builds a `TopicMetadata` with rack info on every partition of `t`.
fn topics_with_racks(t: u128, partitions: i32, racks: Vec<Vec<&str>>) -> TopicMetadata {
    let listed: Vec<((u128, i32), Vec<&str>)> = racks
        .into_iter()
        .enumerate()
        .map(|(i, names)| ((t, i32::try_from(i).unwrap()), names))
        .collect();
    metadata(&[(t, partitions)], &listed)
}

fn of(a: &Assignment, id: &str, t: u128) -> Vec<i32> {
    match a.get(&id.to_string()).unwrap().get(&t) {
        Some(list) => list.clone(),
        None => Vec::new(),
    }
}

#[test]
fn single_member_gets_all_partitions() {
    let t = tid(1);
    let a = UniformAssignor.assign(&[member("m1", &[t])], &metadata(&[(t, 4)], &[]));
    assert!(of(&a, "m1", t) == vec![0, 1, 2, 3]);
}

#[test]
fn two_members_split_round_robin() {
    let t = tid(1);
    let topics = metadata(&[(t, 4)], &[]);
    let a = UniformAssignor.assign(&[member("m1", &[t]), member("m2", &[t])], &topics);
    assert!(of(&a, "m1", t) == vec![0, 2]);
    assert!(of(&a, "m2", t) == vec![1, 3]);
}

#[test]
fn unsubscribed_member_gets_empty_for_topic() {
    let t = tid(1);
    let topics = metadata(&[(t, 2)], &[]);
    let a = UniformAssignor.assign(&[member("m1", &[t]), member("m2", &[])], &topics);
    assert!(of(&a, "m1", t) == vec![0, 1]);
    assert!(of(&a, "m2", t).is_empty());
}

#[test]
fn zero_partitions_no_assignment() {
    let t = tid(1);
    let a = UniformAssignor.assign(&[member("m1", &[t])], &metadata(&[(t, 0)], &[]));
    assert!(of(&a, "m1", t).is_empty());
}

#[test]
fn deterministic_under_member_input_order() {
    let t = tid(1);
    let topics = metadata(&[(t, 6)], &[]);
    let a1 = UniformAssignor.assign(
        &[member("m1", &[t]), member("m2", &[t]), member("m3", &[t])],
        &topics,
    );
    let a2 = UniformAssignor.assign(
        &[member("m3", &[t]), member("m1", &[t]), member("m2", &[t])],
        &topics,
    );
    assert!(a1 == a2);
}

#[test]
fn deterministic_retry_is_complete_unique_and_balanced() {
    let t = tid(1);
    let members = [member("m3", &[t]), member("m1", &[t]), member("m2", &[t])];
    let topics = metadata(&[(t, 7)], &[]);

    let first = UniformAssignor.assign(&members, &topics);
    let retry = UniformAssignor.assign(&members, &topics);
    assert!(first == retry, "an exact retry must be deterministic");

    let mut partitions: Vec<i32> = Vec::new();
    let mut loads: Vec<usize> = Vec::new();
    for id in ["m1", "m2", "m3"] {
        let list = of(&first, id, t);
        loads.push(list.len());
        partitions.extend(list);
    }
    partitions.sort_unstable();
    assert!(partitions == (0..7).collect::<Vec<_>>());
    loads.sort_unstable();
    assert!(loads == vec![2, 2, 3]);
}

#[test]
fn negative_partition_count_is_fail_closed() {
    let t = tid(1);
    let a = UniformAssignor.assign(&[member("m1", &[t])], &metadata(&[(t, -1)], &[]));
    assert!(a.get(&"m1".to_string()).unwrap().is_empty());
}

#[test]
fn empty_members_no_panic() {
    let t = tid(1);
    let a = UniformAssignor.assign(&[], &metadata(&[(t, 4)], &[]));
    assert!(a.is_empty());
}

#[test]
fn rack_aware_prefers_collocated_member() {
    let t = tid(1);
    let topics = topics_with_racks(t, 2, vec![vec!["us-east-1a"], vec!["us-east-1b"]]);
    let a = UniformAssignor.assign(
        &[
            member_in_rack("m1", "us-east-1a", &[t]),
            member_in_rack("m2", "us-east-1b", &[t]),
        ],
        &topics,
    );
    assert!(of(&a, "m1", t) == vec![0], "m1 in us-east-1a takes partition 0");
    assert!(of(&a, "m2", t) == vec![1], "m2 in us-east-1b takes partition 1");
}

#[test]
fn rack_match_wins_even_when_an_unmatched_member_has_less_load() {
    let t = tid(1);
    let topics = topics_with_racks(t, 2, vec![vec![], vec!["rack-a"]]);
    let a = UniformAssignor.assign(
        &[
            member_in_rack("m1", "rack-a", &[t]),
            member_in_rack("m2", "rack-b", &[t]),
        ],
        &topics,
    );
    assert!(of(&a, "m1", t) == vec![0, 1]);
    assert!(!a.get(&"m2".to_string()).unwrap().contains_key(&t));
}

#[test]
fn mixed_topics_assign_only_subscribed_rack_eligible_members() {
    let t1 = tid(1);
    let t2 = tid(2);
    let members = [
        member_in_rack("m1", "rack-a", &[t1, t2]),
        member_in_rack("m2", "rack-b", &[t1]),
        member_in_rack("m3", "rack-c", &[t2]),
        member_in_rack("m4", "rack-a", &[]),
    ];
    let topics = metadata(
        &[(t1, 2), (t2, 2)],
        &[
            ((t1, 0), vec!["rack-a"]),
            ((t1, 1), vec!["rack-b"]),
            ((t2, 0), vec!["rack-c"]),
            ((t2, 1), vec!["rack-a"]),
        ],
    );
    let a = UniformAssignor.assign(&members, &topics);
    assert!(of(&a, "m1", t1) == vec![0]);
    assert!(of(&a, "m2", t1) == vec![1]);
    assert!(of(&a, "m3", t2) == vec![0]);
    assert!(of(&a, "m1", t2) == vec![1]);
    assert!(a.get(&"m4".to_string()).unwrap().is_empty());
}

#[test]
fn rack_aware_falls_back_to_round_robin_when_no_rack_match() {
    let t = tid(1);
    let topics = topics_with_racks(t, 4, vec![vec!["us-east-1a"]; 4]);
    let a = UniformAssignor.assign(
        &[
            member_in_rack("m1", "us-east-1b", &[t]),
            member_in_rack("m2", "us-east-1c", &[t]),
        ],
        &topics,
    );
    assert!(of(&a, "m1", t).len() == 2);
    assert!(of(&a, "m2", t).len() == 2);
    let mut all: Vec<i32> = of(&a, "m1", t);
    all.extend(of(&a, "m2", t));
    all.sort_unstable();
    assert!(all == vec![0, 1, 2, 3]);
}

#[test]
fn rack_aware_balances_within_rack_pool() {
    let t = tid(1);
    let topics = topics_with_racks(t, 3, vec![vec!["us-east-1a"]; 3]);
    let a = UniformAssignor.assign(
        &[
            member_in_rack("m1", "us-east-1a", &[t]),
            member_in_rack("m2", "us-east-1a", &[t]),
        ],
        &topics,
    );
    let (one, two) = (of(&a, "m1", t), of(&a, "m2", t));
    assert!(one.len() + two.len() == 3, "all partitions assigned");
    assert!(one.len().abs_diff(two.len()) <= 1, "balanced within one");
}

#[test]
fn rack_aware_handles_partition_with_no_rack_data() {
    let t = tid(1);
    let topics = metadata(&[(t, 2)], &[((t, 0), vec!["rack-a"])]);
    let a = UniformAssignor.assign(
        &[
            member_in_rack("m1", "rack-a", &[t]),
            member_in_rack("m2", "rack-b", &[t]),
        ],
        &topics,
    );
    assert!(of(&a, "m1", t) == vec![0], "m1 wins rack-collocated partition 0");
    assert!(
        of(&a, "m2", t) == vec![1],
        "partition 1 has no rack data, so it goes to the lighter m2"
    );
}

#[test]
fn rack_aware_empty_partition_racks_acts_like_non_rack_aware() {
    let t = tid(1);
    let a = UniformAssignor.assign(
        &[
            member_in_rack("m1", "rack-a", &[t]),
            member_in_rack("m2", "rack-b", &[t]),
        ],
        &metadata(&[(t, 4)], &[]),
    );
    assert!(of(&a, "m1", t) == vec![0, 2]);
    assert!(of(&a, "m2", t) == vec![1, 3]);
}

#[test]
fn rack_aware_no_subscriber_has_rack_id_acts_like_non_rack_aware() {
    let t = tid(1);
    let topics = topics_with_racks(t, 4, vec![vec!["rack-a"]; 4]);
    let a = UniformAssignor.assign(&[member("m1", &[t]), member("m2", &[t])], &topics);
    assert!(of(&a, "m1", t) == vec![0, 2]);
    assert!(of(&a, "m2", t) == vec![1, 3]);
}

#[test]
fn the_selection_takes_the_first_of_the_least_loaded_matches() {
    assert!(select_uniform_member(&vec![]).is_none());
    assert!(select_uniform_member(&vec![(1, false), (0, false), (0, false)]) == Some(1));
    assert!(select_uniform_member(&vec![(0, false), (2, true), (2, true)]) == Some(1));
    assert!(UniformAssignor.name() == "uniform");
}
