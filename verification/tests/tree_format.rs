use it_tui::tree_format::{child_fingerprint, group_by_id, CompactTree, Schema, TreeEntry, Variant};
use it_tui::types::{ContextInfo, TreeNode};


fn make_node(id: &str, children: Vec<TreeNode>) -> TreeNode {
    TreeNode {
        id: id.to_string(),
        widget_type: None,
        capabilities: Vec::new(),
        actions: Vec::new(),
        children,
        contexts: Vec::new(),
    }
}

fn make_node_with_type(id: &str, widget_type: &str, children: Vec<TreeNode>) -> TreeNode {
    TreeNode {
        id: id.to_string(),
        widget_type: Some(widget_type.to_string()),
        capabilities: Vec::new(),
        actions: Vec::new(),
        children,
        contexts: Vec::new(),
    }
}

fn make_node_with_context(id: &str, contexts: Vec<ContextInfo>, children: Vec<TreeNode>) -> TreeNode {
    TreeNode {
        id: id.to_string(),
        widget_type: None,
        capabilities: Vec::new(),
        actions: Vec::new(),
        children,
        contexts,
    }
}

// =========================================================================
// Schema extraction tests
// =========================================================================

#[test]
fn test_schema_extraction_basic() {
    let nodes = vec![
        make_node_with_type("item", "ListTile", vec![]),
        make_node_with_type("delete", "IconButton", vec![]),
    ];

    let (tree, warnings) = CompactTree::from_tree_nodes(&nodes);

    assert!(warnings.is_empty());
    assert_eq!(tree.schemas.len(), 2);

    let item_schema = tree.schema("item").unwrap();
    assert_eq!(item_schema.widget_type, Some("ListTile".to_string()));

    let delete_schema = tree.schema("delete").unwrap();
    assert_eq!(delete_schema.widget_type, Some("IconButton".to_string()));
}

#[test]
fn test_schema_extraction_nested() {
    let nodes = vec![make_node_with_type(
        "list",
        "ListView",
        vec![
            make_node_with_type("item", "ListTile", vec![]),
            make_node_with_type("item", "ListTile", vec![]),
        ],
    )];

    let (tree, warnings) = CompactTree::from_tree_nodes(&nodes);

    assert!(warnings.is_empty());
    assert_eq!(tree.schemas.len(), 2);
    assert!(tree.schema("list").is_some());
    assert!(tree.schema("item").is_some());
}

#[test]
fn test_schema_extraction_consistent_descriptions() {
    // Same ID with same widget_type should not warn
    let nodes = vec![
        make_node_with_type("btn", "ElevatedButton", vec![]),
        make_node_with_type("btn", "ElevatedButton", vec![]),
        make_node_with_type("btn", "ElevatedButton", vec![]),
    ];

    let (tree, warnings) = CompactTree::from_tree_nodes(&nodes);

    assert!(warnings.is_empty());
    assert_eq!(tree.schemas.len(), 1);
    assert_eq!(
        tree.schema("btn").unwrap().widget_type,
        Some("ElevatedButton".to_string())
    );
}

#[test]
fn test_schema_extraction_mismatched_widget_type() {
    // Same ID with different widget_type should warn and use first
    let nodes = vec![
        make_node_with_type("action", "IconButton", vec![]),
        make_node_with_type("action", "TextButton", vec![]),
    ];

    let (tree, warnings) = CompactTree::from_tree_nodes(&nodes);

    assert_eq!(warnings.len(), 1);
    assert_eq!(warnings[0].id, "action");
    assert!(warnings[0].message.contains("widget_type mismatch"));

    // First seen should be kept
    assert_eq!(
        tree.schema("action").unwrap().widget_type,
        Some("IconButton".to_string())
    );
}

#[test]
fn test_schema_extraction_multiple_mismatches() {
    let nodes = vec![
        make_node_with_type("a", "TypeA1", vec![]),
        make_node_with_type("b", "TypeB1", vec![]),
        make_node_with_type("a", "TypeA2", vec![]),
        make_node_with_type("b", "TypeB2", vec![]),
    ];

    let (tree, warnings) = CompactTree::from_tree_nodes(&nodes);

    assert_eq!(warnings.len(), 2);
    assert_eq!(tree.schemas.len(), 2);

    // First seen preserved
    assert_eq!(
        tree.schema("a").unwrap().widget_type,
        Some("TypeA1".to_string())
    );
    assert_eq!(
        tree.schema("b").unwrap().widget_type,
        Some("TypeB1".to_string())
    );
}

// =========================================================================
// Homogeneous sibling detection tests
// =========================================================================

#[test]
fn test_homogeneous_siblings_simple() {
    // 5 identical "item" nodes with no children
    let nodes: Vec<TreeNode> = (0..5).map(|_| make_node("item", vec![])).collect();

    let (tree, _) = CompactTree::from_tree_nodes(&nodes);

    assert_eq!(tree.tree.len(), 1);
    match &tree.tree[0] {
        TreeEntry::Homogeneous { id, count, children } => {
            assert_eq!(id, "item");
            assert_eq!(*count, 5);
            assert!(children.is_empty());
        }
        _ => panic!("Expected Homogeneous entry"),
    }
}

#[test]
fn test_homogeneous_siblings_with_children() {
    // 3 "item" nodes each with a "delete" child
    let nodes: Vec<TreeNode> = (0..3)
        .map(|_| make_node("item", vec![make_node("delete", vec![])]))
        .collect();

    let (tree, _) = CompactTree::from_tree_nodes(&nodes);

    assert_eq!(tree.tree.len(), 1);
    match &tree.tree[0] {
        TreeEntry::Homogeneous { id, count, children } => {
            assert_eq!(id, "item");
            assert_eq!(*count, 3);
            assert_eq!(children.len(), 1);

            // Child should be singleton since structure is compacted
            match &children[0] {
                TreeEntry::Singleton { id, .. } => {
                    assert_eq!(id, "delete");
                }
                _ => panic!("Expected Singleton child"),
            }
        }
        _ => panic!("Expected Homogeneous entry"),
    }
}

#[test]
fn test_homogeneous_deep_nesting() {
    // item → action → icon (all homogeneous)
    let nodes: Vec<TreeNode> = (0..2)
        .map(|_| {
            make_node(
                "item",
                vec![make_node("action", vec![make_node("icon", vec![])])],
            )
        })
        .collect();

    let (tree, _) = CompactTree::from_tree_nodes(&nodes);

    assert_eq!(tree.tree.len(), 1);
    match &tree.tree[0] {
        TreeEntry::Homogeneous {
            id,
            count,
            children,
        } => {
            assert_eq!(id, "item");
            assert_eq!(*count, 2);

            // Verify nested structure
            match &children[0] {
                TreeEntry::Singleton { id, children } => {
                    assert_eq!(id, "action");
                    match &children[0] {
                        TreeEntry::Singleton { id, .. } => {
                            assert_eq!(id, "icon");
                        }
                        _ => panic!("Expected nested Singleton"),
                    }
                }
                _ => panic!("Expected Singleton child"),
            }
        }
        _ => panic!("Expected Homogeneous entry"),
    }
}

// =========================================================================
// Variant grouping tests
// =========================================================================

#[test]
fn test_variants_different_children() {
    // Same ID "item" but with different child structures
    let nodes = vec![
        make_node("item", vec![make_node("delete", vec![])]),
        make_node("item", vec![make_node("delete", vec![])]),
        make_node("item", vec![make_node("edit", vec![])]),
    ];

    let (tree, _) = CompactTree::from_tree_nodes(&nodes);

    assert_eq!(tree.tree.len(), 1);
    match &tree.tree[0] {
        TreeEntry::Variants { id, variants } => {
            assert_eq!(id, "item");
            assert_eq!(variants.len(), 2);

            // Sorted by count descending
            assert_eq!(variants[0].count, 2);
            assert_eq!(variants[1].count, 1);
        }
        _ => panic!("Expected Variants entry"),
    }
}

#[test]
fn test_variants_some_with_children_some_without() {
    let nodes = vec![
        make_node("item", vec![]),
        make_node("item", vec![make_node("action", vec![])]),
        make_node("item", vec![]),
    ];

    let (tree, _) = CompactTree::from_tree_nodes(&nodes);

    assert_eq!(tree.tree.len(), 1);
    match &tree.tree[0] {
        TreeEntry::Variants { id, variants } => {
            assert_eq!(id, "item");
            assert_eq!(variants.len(), 2);

            // 2 without children, 1 with children
            let empty_count = variants.iter().find(|v| v.children.is_empty());
            let with_children = variants.iter().find(|v| !v.children.is_empty());

            assert_eq!(empty_count.unwrap().count, 2);
            assert_eq!(with_children.unwrap().count, 1);
        }
        _ => panic!("Expected Variants entry"),
    }
}

#[test]
fn test_variants_multiple_different_patterns() {
    let nodes = vec![
        make_node("card", vec![make_node("title", vec![])]),
        make_node("card", vec![make_node("title", vec![]), make_node("subtitle", vec![])]),
        make_node("card", vec![make_node("title", vec![]), make_node("subtitle", vec![])]),
        make_node("card", vec![make_node("image", vec![])]),
    ];

    let (tree, _) = CompactTree::from_tree_nodes(&nodes);

    assert_eq!(tree.tree.len(), 1);
    match &tree.tree[0] {
        TreeEntry::Variants { id, variants } => {
            assert_eq!(id, "card");
            assert_eq!(variants.len(), 3);

            // title,subtitle appears twice
            assert_eq!(variants[0].count, 2);
        }
        _ => panic!("Expected Variants entry"),
    }
}

// =========================================================================
// Heterogeneous detection tests
// =========================================================================

#[test]
fn test_heterogeneous_siblings() {
    // Different IDs - currently returns as individual singletons
    let nodes = vec![
        make_node("header", vec![]),
        make_node("content", vec![]),
        make_node("footer", vec![]),
    ];

    let (tree, _) = CompactTree::from_tree_nodes(&nodes);

    assert_eq!(tree.tree.len(), 3);
    for entry in &tree.tree {
        match entry {
            TreeEntry::Singleton { .. } => {}
            _ => panic!("Expected Singleton entries for heterogeneous siblings"),
        }
    }
}

#[test]
fn test_singleton() {
    let nodes = vec![make_node("root", vec![make_node("child", vec![])])];

    let (tree, _) = CompactTree::from_tree_nodes(&nodes);

    assert_eq!(tree.tree.len(), 1);
    match &tree.tree[0] {
        TreeEntry::Singleton { id, children } => {
            assert_eq!(id, "root");
            assert_eq!(children.len(), 1);
        }
        _ => panic!("Expected Singleton entry"),
    }
}

// =========================================================================
// Mixed scenario tests
// =========================================================================

#[test]
fn test_mixed_homogeneous_and_heterogeneous() {
    // header, item×3, footer
    let nodes = vec![
        make_node("header", vec![]),
        make_node("item", vec![]),
        make_node("item", vec![]),
        make_node("item", vec![]),
        make_node("footer", vec![]),
    ];

    let (tree, _) = CompactTree::from_tree_nodes(&nodes);

    // Should be: header singleton, item homogeneous×3, footer singleton
    assert_eq!(tree.tree.len(), 3);

    match &tree.tree[0] {
        TreeEntry::Singleton { id, .. } => assert_eq!(id, "header"),
        _ => panic!("Expected header Singleton"),
    }

    match &tree.tree[1] {
        TreeEntry::Homogeneous { id, count, .. } => {
            assert_eq!(id, "item");
            assert_eq!(*count, 3);
        }
        _ => panic!("Expected item Homogeneous"),
    }

    match &tree.tree[2] {
        TreeEntry::Singleton { id, .. } => assert_eq!(id, "footer"),
        _ => panic!("Expected footer Singleton"),
    }
}

#[test]
fn test_complex_nested_structure() {
    // list → [item×2 → delete, item×1 → edit]
    let nodes = vec![make_node(
        "list",
        vec![
            make_node("item", vec![make_node("delete", vec![])]),
            make_node("item", vec![make_node("delete", vec![])]),
            make_node("item", vec![make_node("edit", vec![])]),
        ],
    )];

    let (tree, _) = CompactTree::from_tree_nodes(&nodes);

    assert_eq!(tree.tree.len(), 1);

    match &tree.tree[0] {
        TreeEntry::Singleton { id, children } => {
            assert_eq!(id, "list");
            assert_eq!(children.len(), 1);

            // Children should be variants since same ID with different children
            match &children[0] {
                TreeEntry::Variants { id, variants } => {
                    assert_eq!(id, "item");
                    assert_eq!(variants.len(), 2);
                }
                _ => panic!("Expected Variants for items"),
            }
        }
        _ => panic!("Expected Singleton for list"),
    }
}

#[test]
fn test_empty_input() {
    let nodes: Vec<TreeNode> = vec![];
    let (tree, warnings) = CompactTree::from_tree_nodes(&nodes);

    assert!(tree.schemas.is_empty());
    assert!(tree.tree.is_empty());
    assert!(warnings.is_empty());
}

#[test]
fn test_deeply_nested_homogeneous() {
    // 3 levels of homogeneous nesting
    let nodes: Vec<TreeNode> = (0..2)
        .map(|_| {
            make_node(
                "a",
                (0..3)
                    .map(|_| {
                        make_node("b", (0..4).map(|_| make_node("c", vec![])).collect())
                    })
                    .collect(),
            )
        })
        .collect();

    let (tree, _) = CompactTree::from_tree_nodes(&nodes);

    // Top level: a×2
    assert_eq!(tree.tree.len(), 1);
    match &tree.tree[0] {
        TreeEntry::Homogeneous { id, count, children } => {
            assert_eq!(id, "a");
            assert_eq!(*count, 2);

            // Second level: b×3
            match &children[0] {
                TreeEntry::Homogeneous {
                    id,
                    count,
                    children,
                } => {
                    assert_eq!(id, "b");
                    assert_eq!(*count, 3);

                    // Third level: c×4
                    match &children[0] {
                        TreeEntry::Homogeneous { id, count, .. } => {
                            assert_eq!(id, "c");
                            assert_eq!(*count, 4);
                        }
                        _ => panic!("Expected c Homogeneous"),
                    }
                }
                _ => panic!("Expected b Homogeneous"),
            }
        }
        _ => panic!("Expected a Homogeneous"),
    }

    // Schema extraction should find all 3 IDs
    assert_eq!(tree.schemas.len(), 3);
    assert!(tree.schema("a").is_some());
    assert!(tree.schema("b").is_some());
    assert!(tree.schema("c").is_some());
}

// =========================================================================
// Helper function tests
// =========================================================================

#[test]
fn test_child_fingerprint() {
    let node_empty = make_node("x", vec![]);
    assert_eq!(child_fingerprint(&node_empty), "");

    let node_one = make_node("x", vec![make_node("a", vec![])]);
    assert_eq!(child_fingerprint(&node_one), "a");

    let node_multi = make_node(
        "x",
        vec![
            make_node("a", vec![]),
            make_node("b", vec![]),
            make_node("c", vec![]),
        ],
    );
    assert_eq!(child_fingerprint(&node_multi), "a,b,c");
}

#[test]
fn test_group_by_id() {
    let nodes = vec![
        make_node("a", vec![]),
        make_node("a", vec![]),
        make_node("b", vec![]),
        make_node("a", vec![]),
    ];

    let groups = group_by_id(&nodes);

    assert_eq!(groups.len(), 3);
    assert_eq!(groups[0].len(), 2); // a, a
    assert_eq!(groups[1].len(), 1); // b
    assert_eq!(groups[2].len(), 1); // a
}

#[test]
fn test_tree_entry_id() {
    let singleton = TreeEntry::Singleton {
        id: "test".to_string(),
        children: vec![],
    };
    assert_eq!(singleton.id(), Some("test"));

    let homogeneous = TreeEntry::Homogeneous {
        id: "item".to_string(),
        count: 5,
        children: vec![],
    };
    assert_eq!(homogeneous.id(), Some("item"));

    let context = TreeEntry::Context {
        context: "Cart".to_string(),
        description: None,
        children: vec![],
    };
    assert_eq!(context.id(), None);

    let heterogeneous = TreeEntry::Heterogeneous { items: vec![] };
    assert_eq!(heterogeneous.id(), None);
}

// =========================================================================
// JSON Serialization tests
// =========================================================================





// =========================================================================
// Printable format tests
// =========================================================================

#[test]
fn test_printable_simple_homogeneous() {
    let tree = CompactTree {
        schemas: vec![Schema {
                id: "item".to_string(),
                description: Some("A list item".to_string()),
                widget_type: None,
                capabilities: vec!["tap".to_string()],
                actions: vec![],
            }],
        tree: vec![TreeEntry::Homogeneous {
            id: "item".to_string(),
            count: 5,
            children: vec![],
        }],
    };

    let output = tree.to_printable();

    let expected = "\
[Schemas]
• item: \"A list item\" [tap]

[Tree]
└── item ×5
";
    assert_eq!(output, expected);
}

#[test]
fn test_printable_homogeneous_with_single_child() {
    let tree = CompactTree {
        schemas: vec![],
        tree: vec![TreeEntry::Homogeneous {
            id: "item".to_string(),
            count: 5,
            children: vec![TreeEntry::Singleton {
                id: "delete".to_string(),
                children: vec![],
            }],
        }],
    };

    let output = tree.to_printable();

    let expected = "\
[Tree]
└── item ×5 → delete
";
    assert_eq!(output, expected);
}

#[test]
fn test_printable_variants() {
    let tree = CompactTree {
        schemas: vec![],
        tree: vec![TreeEntry::Variants {
            id: "item".to_string(),
            variants: vec![
                Variant {
                    count: 3,
                    children: vec![TreeEntry::Singleton {
                        id: "delete".to_string(),
                        children: vec![],
                    }],
                },
                Variant {
                    count: 2,
                    children: vec![TreeEntry::Singleton {
                        id: "edit".to_string(),
                        children: vec![],
                    }],
                },
            ],
        }],
    };

    let output = tree.to_printable();

    let expected = "\
[Tree]
└── item
    ├── (×3) → delete
    └── (×2) → edit
";
    assert_eq!(output, expected);
}

#[test]
fn test_printable_nested_structure() {
    let tree = CompactTree {
        schemas: vec![],
        tree: vec![TreeEntry::Singleton {
            id: "list".to_string(),
            children: vec![TreeEntry::Homogeneous {
                id: "item".to_string(),
                count: 3,
                children: vec![TreeEntry::Singleton {
                    id: "delete".to_string(),
                    children: vec![],
                }],
            }],
        }],
    };

    let output = tree.to_printable();

    let expected = "\
[Tree]
└── list → item ×3 → delete
";
    assert_eq!(output, expected);
}

#[test]
fn test_printable_mixed_scenario() {
    let tree = CompactTree {
        schemas: vec![
            Schema {
                id: "header".to_string(),
                description: Some("Page header".to_string()),
                widget_type: Some("AppBar".to_string()),
                capabilities: vec![],
                actions: vec![],
            },
            Schema {
                id: "item".to_string(),
                description: Some("List item".to_string()),
                widget_type: Some("ListTile".to_string()),
                capabilities: vec!["tap".to_string(), "longPress".to_string()],
                actions: vec!["delete".to_string()],
            },
        ],
        tree: vec![
            TreeEntry::Singleton {
                id: "header".to_string(),
                children: vec![],
            },
            TreeEntry::Homogeneous {
                id: "item".to_string(),
                count: 5,
                children: vec![TreeEntry::Singleton {
                    id: "delete".to_string(),
                    children: vec![],
                }],
            },
        ],
    };

    let output = tree.to_printable();

    let expected = "\
[Schemas]
• header: \"Page header\" (AppBar)
• item: \"List item\" (ListTile) [tap, longPress] {delete}

[Tree]
├── header
└── item ×5 → delete
";
    assert_eq!(output, expected);
}

#[test]
fn test_printable_multiple_children() {
    let tree = CompactTree {
        schemas: vec![],
        tree: vec![TreeEntry::Singleton {
            id: "card".to_string(),
            children: vec![
                TreeEntry::Singleton {
                    id: "title".to_string(),
                    children: vec![],
                },
                TreeEntry::Singleton {
                    id: "subtitle".to_string(),
                    children: vec![],
                },
                TreeEntry::Singleton {
                    id: "action".to_string(),
                    children: vec![],
                },
            ],
        }],
    };

    let output = tree.to_printable();

    let expected = "\
[Tree]
└── card
    ├── title
    ├── subtitle
    └── action
";
    assert_eq!(output, expected);
}

#[test]
fn test_printable_deep_nested_lines() {
    let tree = CompactTree {
        schemas: vec![],
        tree: vec![TreeEntry::Singleton {
            id: "page".to_string(),
            children: vec![
                TreeEntry::Singleton {
                    id: "header".to_string(),
                    children: vec![
                        TreeEntry::Singleton {
                            id: "logo".to_string(),
                            children: vec![],
                        },
                        TreeEntry::Singleton {
                            id: "nav".to_string(),
                            children: vec![],
                        },
                    ],
                },
                TreeEntry::Singleton {
                    id: "content".to_string(),
                    children: vec![TreeEntry::Homogeneous {
                        id: "item".to_string(),
                        count: 5,
                        children: vec![TreeEntry::Singleton {
                            id: "delete".to_string(),
                            children: vec![],
                        }],
                    }],
                },
                TreeEntry::Singleton {
                    id: "footer".to_string(),
                    children: vec![
                        TreeEntry::Singleton {
                            id: "links".to_string(),
                            children: vec![],
                        },
                        TreeEntry::Singleton {
                            id: "copyright".to_string(),
                            children: vec![],
                        },
                    ],
                },
            ],
        }],
    };

    let output = tree.to_printable();

    let expected = "\
[Tree]
└── page
    ├── header
    │   ├── logo
    │   └── nav
    ├── content → item ×5 → delete
    └── footer
        ├── links
        └── copyright
";

    assert_eq!(output, expected);
}

// =========================================================================
// Context grouping tests
// =========================================================================

#[test]
fn test_context_grouping_single() {
    let nodes = vec![
        make_node_with_context(
            "name-field",
            vec![ContextInfo {
                name: "user-profile".to_string(),
                description: Some("User profile section".to_string()),
            }],
            vec![],
        ),
        make_node_with_context(
            "email-field",
            vec![ContextInfo {
                name: "user-profile".to_string(),
                description: Some("User profile section".to_string()),
            }],
            vec![],
        ),
    ];

    let (tree, _) = CompactTree::from_tree_nodes(&nodes);

    assert_eq!(tree.tree.len(), 1);
    match &tree.tree[0] {
        TreeEntry::Context { context, description, children } => {
            assert_eq!(context, "user-profile");
            assert_eq!(description.as_deref(), Some("User profile section"));
            assert_eq!(children.len(), 2);
        }
        _ => panic!("Expected Context entry"),
    }
}

#[test]
fn test_context_grouping_nested() {
    let nodes = vec![
        make_node_with_context(
            "save-btn",
            vec![
                ContextInfo {
                    name: "settings".to_string(),
                    description: Some("Settings page".to_string()),
                },
                ContextInfo {
                    name: "form".to_string(),
                    description: None,
                },
            ],
            vec![],
        ),
    ];

    let (tree, _) = CompactTree::from_tree_nodes(&nodes);

    assert_eq!(tree.tree.len(), 1);
    match &tree.tree[0] {
        TreeEntry::Context { context, description, children } => {
            assert_eq!(context, "settings");
            assert_eq!(description.as_deref(), Some("Settings page"));
            // Should have nested "form" context
            match &children[0] {
                TreeEntry::Context { context: inner_ctx, children: inner_children, .. } => {
                    assert_eq!(inner_ctx, "form");
                    assert_eq!(inner_children.len(), 1);
                }
                _ => panic!("Expected nested Context entry"),
            }
        }
        _ => panic!("Expected Context entry"),
    }
}

#[test]
fn test_context_grouping_mixed() {
    let nodes = vec![
        make_node("header", vec![]),
        make_node_with_context(
            "profile-name",
            vec![ContextInfo {
                name: "profile".to_string(),
                description: None,
            }],
            vec![],
        ),
    ];

    let (tree, _) = CompactTree::from_tree_nodes(&nodes);

    // Should have header (no context) and profile context
    assert_eq!(tree.tree.len(), 2);
}

#[test]
fn test_context_printable() {
    let tree = CompactTree {
        schemas: vec![],
        tree: vec![TreeEntry::Context {
            context: "user-profile".to_string(),
            description: Some("User profile section".to_string()),
            children: vec![
                TreeEntry::Singleton {
                    id: "name-field".to_string(),
                    children: vec![],
                },
                TreeEntry::Singleton {
                    id: "email-field".to_string(),
                    children: vec![],
                },
            ],
        }],
    };

    let output = tree.to_printable();

    let expected = "\
[Tree]
└── [user-profile]: \"User profile section\"
    ├── name-field
    └── email-field
";
    assert_eq!(output, expected);
}
