use hulk_compiler::parser::ast::{
    AttributeDef, BinaryOp, Expr, ExprKind, FuncDecl, LetBinding, MethodSignature, Param, Program,
    ProtocolDecl, Span, TypeDecl, TypeMember, TypeName, VectorExpr,
};

fn dummy() -> Span {
    Span::dummy()
}

#[test]
fn build_simple_program() {
    let entry = Expr::call(Expr::identifier("print", dummy()), vec![Expr::number("42", dummy())], dummy());
    let program = Program::new(vec![], entry, dummy());
    assert!(program.declarations.is_empty());
    assert!(matches!(program.entry.kind, ExprKind::Call(_)));
}

#[test]
fn build_binary_expr() {
    let e = Expr::binary(BinaryOp::Add, Expr::number("1", dummy()), Expr::number("2", dummy()), dummy());
    assert!(matches!(e.kind, ExprKind::Binary(_)));
}

#[test]
fn build_let_expr() {
    let binding = LetBinding::new("x", None, Expr::number("42", dummy()), dummy());
    let e = Expr::let_expr(vec![binding], Expr::identifier("x", dummy()), dummy());
    assert!(matches!(e.kind, ExprKind::Let(_)));
    if let ExprKind::Let(let_e) = &e.kind {
        assert_eq!(let_e.bindings.len(), 1);
        assert_eq!(let_e.bindings[0].name, "x");
    }
}

#[test]
fn build_if_expr() {
    let e = Expr::if_expr(
        Expr::bool(true, dummy()),
        Expr::number("1", dummy()),
        vec![],
        Expr::number("2", dummy()),
        dummy(),
    );
    assert!(matches!(e.kind, ExprKind::If(_)));
    if let ExprKind::If(if_e) = &e.kind {
        assert!(if_e.elif_chain.is_empty());
    }
}

#[test]
fn build_block_expr() {
    let e = Expr::block(
        vec![
            Expr::call(Expr::identifier("print", dummy()), vec![Expr::number("1", dummy())], dummy()),
            Expr::call(Expr::identifier("print", dummy()), vec![Expr::number("2", dummy())], dummy()),
        ],
        dummy(),
    );
    if let ExprKind::Block(b) = &e.kind {
        assert_eq!(b.body.len(), 2);
        assert!(matches!(b.tail().kind, ExprKind::Call(_)));
    }
}

#[test]
fn build_type_decl() {
    let attr = AttributeDef::new("x", None, Expr::identifier("x", dummy()), dummy());
    let decl = TypeDecl::new(
        "Point",
        vec![Param::new("x", None, dummy()), Param::new("y", None, dummy())],
        None,
        vec![],
        vec![TypeMember::Attribute(attr)],
        dummy(),
    );
    assert_eq!(decl.name, "Point");
    assert_eq!(decl.type_args.len(), 2);
    assert_eq!(decl.members.len(), 1);
}

#[test]
fn build_func_decl() {
    let f = FuncDecl::new("id", vec![Param::new("x", None, dummy())], None, Expr::identifier("x", dummy()), dummy());
    assert_eq!(f.name, "id");
    assert_eq!(f.params.len(), 1);
    assert!(f.return_type.is_none());
}

#[test]
fn build_protocol_decl() {
    let sig = MethodSignature::new("hash", vec![], TypeName::simple("Number", dummy()), dummy());
    let proto = ProtocolDecl::new("Hashable", None, vec![sig], dummy());
    assert_eq!(proto.name, "Hashable");
    assert_eq!(proto.methods.len(), 1);
}

#[test]
fn build_vector_explicit() {
    let e = Expr::new(
        ExprKind::Vector(Box::new(VectorExpr::explicit(
            vec![Expr::number("1", dummy()), Expr::number("2", dummy()), Expr::number("3", dummy())],
            dummy(),
        ))),
        dummy(),
    );
    assert!(matches!(e.kind, ExprKind::Vector(_)));
}

#[test]
fn build_vector_generator() {
    let e = Expr::new(
        ExprKind::Vector(Box::new(VectorExpr::generator(
            Expr::binary(BinaryOp::Power, Expr::identifier("x", dummy()), Expr::number("2", dummy()), dummy()),
            "x",
            Expr::call(
                Expr::identifier("range", dummy()),
                vec![Expr::number("0", dummy()), Expr::number("10", dummy())],
                dummy(),
            ),
            dummy(),
        ))),
        dummy(),
    );
    assert!(matches!(e.kind, ExprKind::Vector(_)));
}

#[test]
fn type_name_display() {
    assert_eq!(TypeName::simple("Number", dummy()).display(), "Number");
    assert_eq!(TypeName::vector("Number", dummy()).display(), "Number[]");
    assert_eq!(TypeName::iterable("Number", dummy()).display(), "Number*");
}

#[test]
fn equal_trees_ignore_node_ids() {
    let mut a = Expr::binary(BinaryOp::Add, Expr::number("1", dummy()), Expr::identifier("x", dummy()), dummy());
    let b = Expr::binary(BinaryOp::Add, Expr::number("1", dummy()), Expr::identifier("x", dummy()), dummy());
    a.id = 7;
    assert!(a == b);
    let c = Expr::binary(BinaryOp::Add, Expr::number("2", dummy()), Expr::identifier("x", dummy()), dummy());
    assert!(a != c);
    let d = Expr::binary(BinaryOp::Sub, Expr::number("1", dummy()), Expr::identifier("x", dummy()), dummy());
    assert!(a != d);
    let e = Expr::binary(BinaryOp::Add, Expr::number("1", Span::new(3, 4)), Expr::identifier("x", dummy()), dummy());
    assert!(a != e);
}
