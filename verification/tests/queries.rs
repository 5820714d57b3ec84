use trust_atom::bucket::create_bucket_string;
use trust_atom::delete::{delete_report, links_to_delete, DeleteError};
use trust_atom::header::LinkDirection;
use trust_atom::query::{answer_query, query, query_mine, LinkQuery, QueryError};
use trust_atom::rollup::{add_rolled_up_agent, is_rollup_target, latest_link_index, push_new_link, ratings_by_agents};
use trust_atom::trust_atom::{convert_links_to_trust_atoms, create, AtomLink, Link};

fn agent() -> Vec<u8> {
  vec![0x84, 0x20, 0x24, 1, 1, 1]
}

fn target() -> Vec<u8> {
  vec![0x84, 0x21, 0x24, 2, 2, 2]
}

/// The forward and reverse links that creating these atoms lays down.
fn create_atoms(contents: &[&str], value: &str) -> (Vec<Link>, Vec<Link>) {
  let mut forward = vec![];
  let mut reverse = vec![];
  for (i, content) in contents.iter().enumerate() {
    let created = create(
      &agent(),
      &target(),
      Some(content.to_string()),
      Some(value.to_string()),
      None,
      create_bucket_string(&[i as u8; 9]),
      None,
    )
    .unwrap();
    forward.push(Link { target: target(), tag: created.forward_tag.0, timestamp: i as i64, create_link_hash: vec![1, i as u8] });
    reverse.push(Link { target: agent(), tag: created.reverse_tag.0, timestamp: i as i64, create_link_hash: vec![2, i as u8] });
  }
  (forward, reverse)
}

/// What the DHT hands out for a planned query, answered.
fn run(plan: &LinkQuery, forward: &[Link], reverse: &[Link]) -> Vec<AtomLink> {
  let links: &[Link] = match plan.direction {
    LinkDirection::Forward => forward,
    LinkDirection::Reverse => reverse,
  };
  let matching: Vec<Link> = links
    .iter()
    .filter(|l| match &plan.tag_filter {
      Some(f) => l.tag.starts_with(&f.0),
      None => true,
    })
    .map(|l| Link { target: l.target.clone(), tag: l.tag.clone(), timestamp: l.timestamp, create_link_hash: l.create_link_hash.clone() })
    .collect();
  answer_query(plan, &matching).unwrap()
}

fn sorted_contents(atoms: &[AtomLink]) -> Vec<Option<String>> {
  let mut contents: Vec<Option<String>> = atoms.iter().map(|a| a.content.clone()).collect();
  contents.sort();
  contents
}

#[test]
fn test_query_mine() {
  let (forward, reverse) = create_atoms(&["sushi"], "0.8");
  let plan = query_mine(agent(), None, None, None, None, None).unwrap();
  let atoms = run(&plan, &forward, &reverse);
  assert_eq!(atoms.len(), 1);
  let trust_atom = &atoms[0];
  assert_eq!(trust_atom.source_hash, agent());
  assert_eq!(trust_atom.target_hash, target());
  assert_eq!(trust_atom.content, Some("sushi".to_string()));
  assert_eq!(trust_atom.value, Some(".800000000".to_string()));
}

#[test]
fn test_query_mine_with_content_starts_with() {
  let (forward, reverse) = create_atoms(&["sushi", "sushi joint", "sush"], "0.8");
  let plan = query_mine(agent(), None, None, Some("sushi".into()), None, None).unwrap();
  let atoms = run(&plan, &forward, &reverse);
  assert_eq!(atoms.len(), 2);
  assert_eq!(sorted_contents(&atoms), [Some("sushi".to_string()), Some("sushi joint".to_string())]);
}

#[test]
fn test_query_mine_with_content_not_starts_with() {
  let (forward, reverse) = create_atoms(
    &["sushi", "sushi joint", "sush", "not_example", "not starts", "reg_example"],
    "0.8",
  );
  let plan = query_mine(agent(), None, None, None, Some("not".into()), None).unwrap();
  let kept = run(&plan, &forward, &reverse);
  assert_eq!(kept.len(), 4);
  assert_eq!(
    sorted_contents(&kept),
    [
      Some("reg_example".to_string()),
      Some("sush".to_string()),
      Some("sushi".to_string()),
      Some("sushi joint".to_string()),
    ]
  );
  let all = run(&query_mine(agent(), None, None, None, None, None).unwrap(), &forward, &reverse);
  assert_eq!(all.len(), 6);
}

#[test]
fn test_query_mine_with_content_full() {
  let (forward, reverse) = create_atoms(&["sushi", "sushi joint", "sush"], "0.8");
  let plan = query_mine(agent(), None, Some("sushi".into()), None, None, None).unwrap();
  let atoms = run(&plan, &forward, &reverse);
  assert_eq!(atoms.len(), 1);
  assert_eq!(atoms[0].content, Some("sushi".to_string()));
}

#[test]
fn value_filters() {
  let (forward, reverse) = create_atoms(&["sushi"], "0.8");
  let exact = query(Some(agent()), None, Some("sushi".into()), None, None, Some(".800000000".into())).unwrap();
  assert_eq!(exact.tag_filter.as_ref().unwrap().0, "Ŧ→sushi\0".as_bytes().to_vec());
  assert_eq!(run(&exact, &forward, &reverse).len(), 1);
  let prefix = query(Some(agent()), None, Some("sushi".into()), None, None, Some(".8".into())).unwrap();
  assert_eq!(run(&prefix, &forward, &reverse).len(), 1);
  let other = query(Some(agent()), None, Some("sushi".into()), None, None, Some(".9".into())).unwrap();
  assert_eq!(run(&other, &forward, &reverse).len(), 0);
  let value_alone = query(None, Some(target()), None, None, None, Some(".8".into())).unwrap();
  assert!(value_alone.tag_filter.is_none());
  let atoms = run(&value_alone, &forward, &reverse);
  assert_eq!(atoms.len(), 1);
  assert_eq!(atoms[0].content, Some("sushi".to_string()));
}

#[test]
fn filters_are_anded() {
  let (forward, reverse) = create_atoms(&["sushi", "sushi joint", "sush", "ramen"], ".5");
  let both = query(Some(agent()), None, None, Some("sush".into()), Some("sushi ".into()), Some(".5".into())).unwrap();
  assert_eq!(both.tag_filter.as_ref().unwrap().0, "Ŧ→sush".as_bytes().to_vec());
  assert_eq!(sorted_contents(&run(&both, &forward, &reverse)), [Some("sush".to_string()), Some("sushi".to_string())]);
  let full_and_prefix = query(Some(agent()), None, Some("sushi".into()), Some("su".into()), None, None).unwrap();
  assert_eq!(sorted_contents(&run(&full_and_prefix, &forward, &reverse)), [Some("sushi".to_string())]);
  let disjoint = query(Some(agent()), None, Some("sushi".into()), Some("ra".into()), None, None).unwrap();
  assert!(run(&disjoint, &forward, &reverse).is_empty());
  let wrong_value = query(Some(agent()), None, None, Some("sush".into()), None, Some(".6".into())).unwrap();
  assert!(run(&wrong_value, &forward, &reverse).is_empty());
}

#[test]
fn reverse_queries_swap_source_and_target() {
  let (forward, reverse) = create_atoms(&["sushi", "ramen"], ".5");
  let plan = query(None, Some(target()), None, Some("ram".into()), None, None).unwrap();
  assert_eq!(plan.direction, LinkDirection::Reverse);
  assert_eq!(plan.base, target());
  let atoms = run(&plan, &forward, &reverse);
  assert_eq!(atoms.len(), 1);
  assert_eq!(atoms[0].source_hash, agent());
  assert_eq!(atoms[0].target_hash, target());
  assert_eq!(atoms[0].content, Some("ramen".to_string()));
}

#[test]
fn query_errors() {
  assert_eq!(query(None, None, None, None, None, None).err(), Some(QueryError::NoSourceOrTarget));
  assert_eq!(query(Some(agent()), Some(target()), None, None, None, None).err(), Some(QueryError::SourceAndTarget));
  assert!(query(Some(agent()), None, None, None, None, None).unwrap().tag_filter.is_none());
}

#[test]
fn unreadable_links_fail_the_answer() {
  let plan = query(Some(agent()), None, None, None, None, None).unwrap();
  let links = vec![Link { target: target(), tag: vec![0xff], timestamp: 0, create_link_hash: vec![1] }];
  assert_eq!(answer_query(&plan, &links).err(), Some(trust_atom::trust_atom::ConvertError::NotUtf8));
}

#[test]
fn test_delete_trust_atom() {
  let (forward, reverse) = create_atoms(&["sushi", "sushi"], ".8");
  let mut forward_links = forward;
  forward_links.push(Link { target: vec![9, 9], tag: vec![1], timestamp: 0, create_link_hash: vec![7] });
  let forward_hashes = links_to_delete(&forward_links, &target(), LinkDirection::Forward);
  assert_eq!(forward_hashes, vec![vec![1, 0], vec![1, 1]]);
  let reverse_hashes = links_to_delete(&reverse, &agent(), LinkDirection::Reverse);
  assert_eq!(reverse_hashes, vec![vec![2, 0], vec![2, 1]]);
  let wrong_header = links_to_delete(&reverse, &agent(), LinkDirection::Forward);
  assert!(wrong_header.is_empty());
  let report = delete_report(2, 2).unwrap();
  assert_eq!(report.trust_atoms_deleted, 2);
  assert_eq!(report.forward_links_deleted, 2);
  assert_eq!(report.backward_links_deleted, 2);
  assert_eq!(delete_report(3, 2).err(), Some(DeleteError::CountMismatch { forward: 3, reverse: 2 }));
}

#[test]
fn latest_link_takes_last_of_newest() {
  let t = vec![1u8];
  let other = vec![2u8];
  let links = vec![
    Link { target: t.clone(), tag: vec![], timestamp: 5, create_link_hash: vec![0] },
    Link { target: other.clone(), tag: vec![], timestamp: 9, create_link_hash: vec![1] },
    Link { target: t.clone(), tag: vec![], timestamp: 7, create_link_hash: vec![2] },
    Link { target: t.clone(), tag: vec![], timestamp: 7, create_link_hash: vec![3] },
    Link { target: t.clone(), tag: vec![], timestamp: 6, create_link_hash: vec![4] },
  ];
  assert_eq!(latest_link_index(&links, &t), Some(3));
  assert_eq!(latest_link_index(&links, &other), Some(1));
  assert_eq!(latest_link_index(&links, &[3]), None);
  assert_eq!(latest_link_index(&[], &t), None);
}

#[test]
fn rolled_up_agents_are_listed_once() {
  let mut agents: Vec<Vec<u8>> = vec![];
  add_rolled_up_agent(&mut agents, &[1], true);
  add_rolled_up_agent(&mut agents, &[2], false);
  add_rolled_up_agent(&mut agents, &[1], true);
  add_rolled_up_agent(&mut agents, &[3], true);
  assert_eq!(agents, vec![vec![1], vec![3]]);
}

#[test]
fn value_prefix_finds_atoms_with_and_without_content() {
  let with_content = create(&agent(), &target(), Some("tea".into()), Some(".75".into()), None, create_bucket_string(&[1; 9]), None).unwrap();
  let without_content = create(&agent(), &target(), None, Some(".75".into()), None, create_bucket_string(&[2; 9]), None).unwrap();
  let forward = vec![
    Link { target: target(), tag: with_content.forward_tag.0, timestamp: 0, create_link_hash: vec![1] },
    Link { target: target(), tag: without_content.forward_tag.0, timestamp: 1, create_link_hash: vec![2] },
  ];
  let plan = query(Some(agent()), None, None, None, None, Some(".7".into())).unwrap();
  let atoms = run(&plan, &forward, &[]);
  assert_eq!(atoms.len(), 2);
  assert_eq!(atoms[0].content, Some("tea".to_string()));
  assert_eq!(atoms[1].content, None);
  assert_eq!(atoms[1].value, Some(".750000000".to_string()));
  let other = query(Some(agent()), None, None, None, None, Some(".8".into())).unwrap();
  assert!(run(&other, &forward, &[]).is_empty());
}

#[test]
fn latest_links_are_taken_once() {
  let mut links: Vec<Link> = vec![];
  let l = |h: u8| Link { target: vec![1], tag: vec![2], timestamp: 3, create_link_hash: vec![h] };
  push_new_link(&mut links, l(1));
  push_new_link(&mut links, l(2));
  push_new_link(&mut links, l(1));
  assert_eq!(links.len(), 2);
  assert_eq!(links[1].create_link_hash, vec![2]);
}

#[test]
fn rollup_targets_exclude_me_and_agents() {
  let agents = vec![vec![3u8], vec![4u8]];
  assert!(is_rollup_target(&[5], &[1], &agents));
  assert!(!is_rollup_target(&[1], &[1], &agents));
  assert!(!is_rollup_target(&[4], &[1], &agents));
  assert!(is_rollup_target(&[4], &[1], &vec![]));
}

#[test]
fn ratings_come_from_agents_with_content_and_value() {
  let atom = |source: u8, content: Option<&str>, value: Option<&str>| AtomLink {
    source_hash: vec![source],
    target_hash: vec![9],
    content: content.map(|c| c.to_string()),
    value: value.map(|v| v.to_string()),
    extra_hash: None,
  };
  let atoms = vec![
    atom(3, Some("tea"), Some(".5")),
    atom(7, Some("tea"), Some(".9")),
    atom(4, None, Some(".2")),
    atom(4, Some("coffee"), None),
    atom(4, Some("cake"), Some("-.1")),
  ];
  let ratings = ratings_by_agents(&atoms, &vec![vec![3], vec![4]]);
  assert_eq!(
    ratings,
    vec![
      (vec![3], "tea".to_string(), ".5".to_string()),
      (vec![4], "cake".to_string(), "-.1".to_string()),
    ]
  );
  assert!(ratings_by_agents(&atoms, &vec![]).is_empty());
}
