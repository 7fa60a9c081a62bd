use maple::block::Block;
use maple::closure::Closure;
use maple::lex::{Token, TokenKind, tokenize};
use maple::codemap::Span;
use maple::prototype::PrototypeMethod;
use maple::tuple::TupleDefinition;
use maple::types::{PrimitiveType, Type};

#[test]
fn primitive_type_names() {
    assert_eq!(PrimitiveType::String.name(), "String");
    assert_eq!(PrimitiveType::Integer.name(), "Int");
    assert_eq!(PrimitiveType::Float.name(), "Float");
    assert_eq!(PrimitiveType::Boolean.name(), "Boolean");
    assert_eq!(PrimitiveType::Nil.name(), "Nil");
}

#[test]
fn prototype_method_is_named_after_its_closure() {
    let closure = Closure {
        name: "area".to_string(),
        closed_values: vec!["radius".to_string()],
        body: Block { code: vec![] },
    };
    let method = PrototypeMethod::new(closure);
    assert_eq!(method.get_name(), "area");
}

#[test]
fn tuple_definition_renders_its_name() {
    let def: TupleDefinition<PrimitiveType> = TupleDefinition {
        name: "Pair".to_string(),
        size: 2,
        shape: vec![PrimitiveType::Integer, PrimitiveType::Boolean],
    };
    assert_eq!(def.name(), "Pair");
}

#[test]
fn a_block_can_hold_a_scanned_token_stream() {
    let toks = tokenize("a + b").unwrap();
    let code: Vec<Token> = toks
        .into_iter()
        .map(|(kind, start, end)| Token::new(Span::new(start, end), kind))
        .collect();
    let block = Block { code };
    assert_eq!(block.code.len(), 3);
    assert_eq!(block.code[1].kind, TokenKind::Plus);
    assert_eq!(block.code[2].span, Span::new(4, 5));
}
