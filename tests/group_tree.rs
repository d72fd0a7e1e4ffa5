use git_credential_keepassxc::groups::{flat_groups, GroupNode};

fn node(name: &str, children: Vec<GroupNode>) -> GroupNode {
    GroupNode { name: name.to_string(), uuid: format!("{name}-uuid"), children }
}

#[test]
fn groups_flatten_depth_first_with_parents() {
    let tree = vec![
        node("Root", vec![node("Git", vec![node("Work", vec![])]), node("a -> b", vec![])]),
        node("Other", vec![]),
    ];
    let flat: Vec<(Vec<String>, String, String)> =
        flat_groups(&tree).into_iter().map(|g| (g.parents, g.name, g.uuid)).collect();
    let s = |v: &[&str]| v.iter().map(|x| x.to_string()).collect::<Vec<_>>();
    assert_eq!(
        flat,
        vec![
            (s(&[]), "Root".to_string(), "Root-uuid".to_string()),
            (s(&["Root"]), "Git".to_string(), "Git-uuid".to_string()),
            (s(&["Root", "Git"]), "Work".to_string(), "Work-uuid".to_string()),
            (s(&["Root"]), "a -> b".to_string(), "a -> b-uuid".to_string()),
            (s(&[]), "Other".to_string(), "Other-uuid".to_string()),
        ]
    );
}

#[test]
fn empty_tree_has_no_groups() {
    assert!(flat_groups(&vec![]).is_empty());
}
