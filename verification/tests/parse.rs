use dice_roll::ast::{Expr, ExprOp};
use dice_roll::parse::parse;

#[test]
fn it_should_parse_number_zero() {
  test_single(&"0", Expr::Integer(0));
}

#[test]
fn it_should_parse_number() {
  test_single(&"1", Expr::Integer(1));
  test_single(&"123", Expr::Integer(123));
  test_single(&"900", Expr::Integer(900));
  test_single(&"6594", Expr::Integer(6594));
}

#[test]
fn it_should_add_two_numbers_with_no_spaces() {
  test_single(&"1+2", Expr::Operator( ExprOp::Add,
    Box::new(Expr::Integer(1)),
    Box::new(Expr::Integer(2)),
  ))
}

#[test]
fn it_should_add_two_numbers_with_spaces() {
  test_single(&"1 + 2", Expr::Operator( ExprOp::Add,
    Box::new(Expr::Integer(1)),
    Box::new(Expr::Integer(2)),
  ))
}

#[test]
fn it_should_add_three_numbers_with_spaces() {
  test_single(&"1 + 2 + 3",
    Expr::Operator( ExprOp::Add,
      Box::new(Expr::Integer(1)),
      Box::new(Expr::Operator( ExprOp::Add,
        Box::new(Expr::Integer(2)),
        Box::new(Expr::Integer(3)),
      ))
    )
  )
}

#[test]
fn it_should_add_and_subtract_lots_of_numbers_with_spaces() {
  test_single(&"1 + 2 - 3 + 4 - 5 - 6 + 7 + 8 - 9",
    Expr::Operator( ExprOp::Add,
      Box::new(Expr::Integer(1)),
      Box::new(Expr::Operator( ExprOp::Sub,
        Box::new(Expr::Integer(2)),
        Box::new(Expr::Operator( ExprOp::Add,
          Box::new(Expr::Integer(3)),
          Box::new(Expr::Operator( ExprOp::Sub,
            Box::new(Expr::Integer(4)),
            Box::new(Expr::Operator( ExprOp::Sub,
              Box::new(Expr::Integer(5)),
              Box::new(Expr::Operator( ExprOp::Add,
                Box::new(Expr::Integer(6)),
                Box::new(Expr::Operator( ExprOp::Add,
                  Box::new(Expr::Integer(7)),
                  Box::new(Expr::Operator( ExprOp::Sub,
                    Box::new(Expr::Integer(8)),
                    Box::new(Expr::Integer(9)),
                  ))
                ))
              ))
            ))
          ))
        ))
      ))
    )
  )
}

#[test]
fn it_should_add_handle_operator_precedence_with_mult_and_add() {
  test_single(&"1 + 2 * 3",
    Expr::Operator( ExprOp::Add,
      Box::new(Expr::Integer(1)),
      Box::new(Expr::Operator( ExprOp::Mult,
        Box::new(Expr::Integer(2)),
        Box::new(Expr::Integer(3)),
      )),
    )
  );

  test_single(&"1 * 2 + 3",
    Expr::Operator( ExprOp::Add,
      Box::new(Expr::Operator( ExprOp::Mult,
        Box::new(Expr::Integer(1)),
        Box::new(Expr::Integer(2)),
      )),
      Box::new(Expr::Integer(3)),
    )
  );
}

#[test]
fn it_should_add_handle_operator_precedence_with_lots_of_numbers() {
  test_single(&"1 + 2 * 3 * 4 + 5 * 6 + 7",
    Expr::Operator( ExprOp::Add,
      Box::new(Expr::Integer(1)),
      Box::new(Expr::Operator( ExprOp::Add,
        Box::new(Expr::Operator( ExprOp::Mult,
          Box::new(Expr::Integer(2)),
          Box::new(Expr::Operator( ExprOp::Mult,
            Box::new(Expr::Integer(3)),
            Box::new(Expr::Integer(4)),
          )),
        )),
        Box::new(Expr::Operator( ExprOp::Add,
          Box::new(Expr::Operator( ExprOp::Mult,
            Box::new(Expr::Integer(5)),
            Box::new(Expr::Integer(6)),
          )),
          Box::new(Expr::Integer(7)),
        )),
      )),
    )
  )
}

#[test]
fn it_should_handle_brackets() {
  test_single(&"(1 + 2) * 3 * (4 + 5)",
    Expr::Operator( ExprOp::Mult,
      Box::new(Expr::Operator( ExprOp::Add,
        Box::new(Expr::Integer(1)),
        Box::new(Expr::Integer(2)),
      )),
      Box::new(Expr::Operator( ExprOp::Mult,
        Box::new(Expr::Integer(3)),
        Box::new(Expr::Operator( ExprOp::Add,
          Box::new(Expr::Integer(4)),
          Box::new(Expr::Integer(5)),
        )),
      )),
    ),
  )
}

#[test]
fn it_should_handle_multiple_expressions() {
  test_multiple(&"1 + 2 * 3 1 * 2 + 3",
    vec![
      Expr::Operator( ExprOp::Add,
        Box::new(Expr::Integer(1)),
        Box::new(Expr::Operator( ExprOp::Mult,
          Box::new(Expr::Integer(2)),
          Box::new(Expr::Integer(3)),
        )),
      ),
      Expr::Operator( ExprOp::Add,
        Box::new(Expr::Operator( ExprOp::Mult,
          Box::new(Expr::Integer(1)),
          Box::new(Expr::Integer(2)),
        )),
        Box::new(Expr::Integer(3)),
      ),
    ]
  );
}

#[test]
fn it_should_handle_multiple_die_rolls() {
  test_multiple(&"1d6 1d6",
    vec![
      Expr::Operator( ExprOp::Roll,
        Box::new(Expr::Integer(1)),
        Box::new(Expr::Integer(6)),
      ),
      Expr::Operator( ExprOp::Roll,
        Box::new(Expr::Integer(1)),
        Box::new(Expr::Integer(6)),
      ),
    ]
  );
}

#[test]
fn it_should_handle_multiple_die_rolls_with_commas_no_spaces() {
  test_multiple(&"1d6,1d6",
    vec![
      Expr::Operator( ExprOp::Roll,
        Box::new(Expr::Integer(1)),
        Box::new(Expr::Integer(6)),
      ),
      Expr::Operator( ExprOp::Roll,
        Box::new(Expr::Integer(1)),
        Box::new(Expr::Integer(6)),
      ),
    ]
  );
}

#[test]
fn it_should_handle_multiple_die_rolls_with_commas_and_spaces() {
  test_multiple(&"1d6 1d6",
    vec![
      Expr::Operator( ExprOp::Roll,
        Box::new(Expr::Integer(1)),
        Box::new(Expr::Integer(6)),
      ),
      Expr::Operator( ExprOp::Roll,
        Box::new(Expr::Integer(1)),
        Box::new(Expr::Integer(6)),
      ),
    ]
  );
}

#[test]
fn it_should_handle_one_dice_roll_with_num_dice_omitted() {
  test_multiple(&"d6",
    vec![
      Expr::Operator( ExprOp::Roll,
        Box::new(Expr::Integer(1)),
        Box::new(Expr::Integer(6)),
      ),
    ]
  );
}

#[test]
fn it_should_handle_multiple_dice_rolls_with_num_dice_omitted() {
  test_multiple(&"d6 d6",
    vec![
      Expr::Operator( ExprOp::Roll,
        Box::new(Expr::Integer(1)),
        Box::new(Expr::Integer(6)),
      ),
      Expr::Operator( ExprOp::Roll,
        Box::new(Expr::Integer(1)),
        Box::new(Expr::Integer(6)),
      ),
    ]
  );
}

fn test_single(
  expr : &str,
  expected : Expr,
) {
  test_multiple(expr, vec![expected])
}

fn test_multiple(
  expr : &str,
  expected : Vec<Expr>,
) {
  assert_eq!(parse(expr), Ok(expected))
}
