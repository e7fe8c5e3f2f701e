use it_tui::address::{Address, AddressSegment, ParseError};


// =========================================================================
// Parse simple ID
// =========================================================================

#[test]
fn test_parse_simple_id() {
    let addr = Address::parse("item").unwrap();
    assert_eq!(addr.segments.len(), 1);
    assert_eq!(addr.segments[0], AddressSegment::Id("item".to_string()));
}

// =========================================================================
// Parse indexed
// =========================================================================

#[test]
fn test_parse_indexed() {
    let addr = Address::parse("item[2]").unwrap();
    assert_eq!(addr.segments.len(), 1);
    assert_eq!(
        addr.segments[0],
        AddressSegment::Indexed {
            id: "item".to_string(),
            index: 2
        }
    );
}

#[test]
fn test_parse_indexed_zero() {
    let addr = Address::parse("item[0]").unwrap();
    assert_eq!(
        addr.segments[0],
        AddressSegment::Indexed {
            id: "item".to_string(),
            index: 0
        }
    );
}

// =========================================================================
// Parse with child
// =========================================================================

#[test]
fn test_parse_with_child() {
    let addr = Address::parse("item.delete").unwrap();
    assert_eq!(addr.segments.len(), 2);
    assert_eq!(addr.segments[0], AddressSegment::Id("item".to_string()));
    assert_eq!(addr.segments[1], AddressSegment::Id("delete".to_string()));
}

// =========================================================================
// Parse indexed with child
// =========================================================================

#[test]
fn test_parse_indexed_with_child() {
    let addr = Address::parse("item[2].delete").unwrap();
    assert_eq!(addr.segments.len(), 2);
    assert_eq!(
        addr.segments[0],
        AddressSegment::Indexed {
            id: "item".to_string(),
            index: 2
        }
    );
    assert_eq!(addr.segments[1], AddressSegment::Id("delete".to_string()));
}

// =========================================================================
// Parse variant filter
// =========================================================================

#[test]
fn test_parse_variant_filter() {
    let addr = Address::parse("item:delete").unwrap();
    assert_eq!(addr.segments.len(), 1);
    assert_eq!(
        addr.segments[0],
        AddressSegment::VariantFilter {
            id: "item".to_string(),
            variant_child: "delete".to_string()
        }
    );
}

// =========================================================================
// Parse variant filter indexed
// =========================================================================

#[test]
fn test_parse_variant_filter_indexed() {
    let addr = Address::parse("item:delete[1]").unwrap();
    assert_eq!(addr.segments.len(), 1);
    assert_eq!(
        addr.segments[0],
        AddressSegment::VariantFilterIndexed {
            id: "item".to_string(),
            variant_child: "delete".to_string(),
            index: 1
        }
    );
}

// =========================================================================
// Parse complex
// =========================================================================

#[test]
fn test_parse_complex() {
    let addr = Address::parse("list.item:delete[1].icon").unwrap();
    assert_eq!(addr.segments.len(), 3);
    assert_eq!(addr.segments[0], AddressSegment::Id("list".to_string()));
    assert_eq!(
        addr.segments[1],
        AddressSegment::VariantFilterIndexed {
            id: "item".to_string(),
            variant_child: "delete".to_string(),
            index: 1
        }
    );
    assert_eq!(addr.segments[2], AddressSegment::Id("icon".to_string()));
}

#[test]
fn test_parse_variant_filter_with_child() {
    let addr = Address::parse("item:delete[0].delete").unwrap();
    assert_eq!(addr.segments.len(), 2);
    assert_eq!(
        addr.segments[0],
        AddressSegment::VariantFilterIndexed {
            id: "item".to_string(),
            variant_child: "delete".to_string(),
            index: 0
        }
    );
    assert_eq!(addr.segments[1], AddressSegment::Id("delete".to_string()));
}

// =========================================================================
// Parse errors
// =========================================================================

#[test]
fn test_parse_error_empty_input() {
    assert_eq!(Address::parse(""), Err(ParseError::EmptyInput));
}

#[test]
fn test_parse_error_empty_segment() {
    assert_eq!(Address::parse("item..delete"), Err(ParseError::EmptySegment));
    assert_eq!(Address::parse(".item"), Err(ParseError::EmptySegment));
    assert_eq!(Address::parse("item."), Err(ParseError::EmptySegment));
}

#[test]
fn test_parse_error_invalid_index() {
    assert_eq!(
        Address::parse("item[abc]"),
        Err(ParseError::InvalidIndex("abc".to_string()))
    );
    assert_eq!(
        Address::parse("item[-1]"),
        Err(ParseError::InvalidIndex("-1".to_string()))
    );
}

#[test]
fn test_parse_error_unclosed_bracket() {
    assert_eq!(Address::parse("item[2"), Err(ParseError::UnclosedBracket));
    assert_eq!(
        Address::parse("item:delete[1"),
        Err(ParseError::UnclosedBracket)
    );
}

#[test]
fn test_parse_error_empty_id() {
    assert_eq!(Address::parse("[2]"), Err(ParseError::EmptyId));
    assert_eq!(Address::parse(":delete"), Err(ParseError::EmptyId));
}

#[test]
fn test_parse_error_empty_variant_child() {
    assert_eq!(Address::parse("item:"), Err(ParseError::EmptyVariantChild));
    assert_eq!(Address::parse("item:[1]"), Err(ParseError::EmptyVariantChild));
}

// =========================================================================
// Display
// =========================================================================

#[test]
fn test_display_simple_id() {
    let addr = Address {
        segments: vec![AddressSegment::Id("item".to_string())],
    };
    assert_eq!(addr.to_string(), "item");
}

#[test]
fn test_display_indexed() {
    let addr = Address {
        segments: vec![AddressSegment::Indexed {
            id: "item".to_string(),
            index: 2,
        }],
    };
    assert_eq!(addr.to_string(), "item[2]");
}

#[test]
fn test_display_variant_filter() {
    let addr = Address {
        segments: vec![AddressSegment::VariantFilter {
            id: "item".to_string(),
            variant_child: "delete".to_string(),
        }],
    };
    assert_eq!(addr.to_string(), "item:delete");
}

#[test]
fn test_display_variant_filter_indexed() {
    let addr = Address {
        segments: vec![AddressSegment::VariantFilterIndexed {
            id: "item".to_string(),
            variant_child: "delete".to_string(),
            index: 1,
        }],
    };
    assert_eq!(addr.to_string(), "item:delete[1]");
}

#[test]
fn test_display_complex() {
    let addr = Address {
        segments: vec![
            AddressSegment::Id("list".to_string()),
            AddressSegment::VariantFilterIndexed {
                id: "item".to_string(),
                variant_child: "delete".to_string(),
                index: 1,
            },
            AddressSegment::Id("icon".to_string()),
        ],
    };
    assert_eq!(addr.to_string(), "list.item:delete[1].icon");
}

// =========================================================================
// Roundtrip tests
// =========================================================================

#[test]
fn test_roundtrip_simple_id() {
    let input = "item";
    let addr = Address::parse(input).unwrap();
    assert_eq!(addr.to_string(), input);
}

#[test]
fn test_roundtrip_indexed() {
    let input = "item[2]";
    let addr = Address::parse(input).unwrap();
    assert_eq!(addr.to_string(), input);
}

#[test]
fn test_roundtrip_with_child() {
    let input = "item.delete";
    let addr = Address::parse(input).unwrap();
    assert_eq!(addr.to_string(), input);
}

#[test]
fn test_roundtrip_indexed_with_child() {
    let input = "item[2].delete";
    let addr = Address::parse(input).unwrap();
    assert_eq!(addr.to_string(), input);
}

#[test]
fn test_roundtrip_variant_filter() {
    let input = "item:delete";
    let addr = Address::parse(input).unwrap();
    assert_eq!(addr.to_string(), input);
}

#[test]
fn test_roundtrip_variant_filter_indexed() {
    let input = "item:delete[1]";
    let addr = Address::parse(input).unwrap();
    assert_eq!(addr.to_string(), input);
}

#[test]
fn test_roundtrip_complex() {
    let input = "list.item:delete[1].icon";
    let addr = Address::parse(input).unwrap();
    assert_eq!(addr.to_string(), input);
}

#[test]
fn test_roundtrip_deeply_nested() {
    let input = "app.page[0].section.list.item:edit[2].button";
    let addr = Address::parse(input).unwrap();
    assert_eq!(addr.to_string(), input);
}
