use ming::scheme::expr::Expr;
use ming::scheme::position::SourcePos;

#[test]
fn expressions_report_where_they_start() {
    let at = SourcePos::new(3, 7);
    let sym = Expr::symbol("car", at);
    assert_eq!(sym.position(), at);
    match &sym {
        Expr::Symbol(name, _) => assert_eq!(name.iter().collect::<String>(), "car"),
        other => panic!("expected a symbol, got {other:?}"),
    }
    let quote = Expr::quote_symbol(SourcePos::new(1, 1));
    match &quote {
        Expr::Symbol(name, pos) => {
            assert_eq!(name.iter().collect::<String>(), "quote");
            assert_eq!(*pos, SourcePos::new(1, 1));
        }
        other => panic!("expected a symbol, got {other:?}"),
    }
    let list = Expr::list(vec![sym, quote], SourcePos::new(2, 4));
    assert_eq!(list.position(), SourcePos::new(2, 4));
    match &list {
        Expr::List(items, _) => {
            assert_eq!(items.len(), 2);
            assert_eq!(items[0].position(), at);
        }
        other => panic!("expected a list, got {other:?}"),
    }
}
