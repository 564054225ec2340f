use sleek::high_order_iterator::HigherOrderIterator;
use sleek::matrix_iterator::MatrixIterator;
use sleek::queue_iterator::QueueIterator;
use sleek::stack_iterator::StackIterator;

#[test]
fn it_moves_matrix() {
    let mut matrix =
        MatrixIterator::new(vec!['1', '2', '0', '5', '7', '0', '8', '9', '0'], '0');
    assert_eq!(matrix.locus(), [1, 1]);

    matrix.next();

    assert_eq!(matrix.locus(), [1, 2]);

    matrix.left();

    assert_eq!(matrix.locus(), [1, 1]);

    matrix.next();

    assert_eq!(matrix.locus(), [1, 2]);

    matrix.next();

    assert_eq!(matrix.locus(), [1, 3]);

    matrix.next();

    assert_eq!(matrix.locus(), [2, 1]);

    matrix.left();

    assert_eq!(matrix.locus(), [1, 3]);

    matrix.next(); // [2, 1]

    matrix.next(); // [2, 2]

    matrix.next(); // [2, 3];

    matrix.next(); // [3, 1]

    assert_eq!(matrix.locus(), [3, 1]);

    println!("{:?}", matrix.locus());
}

fn matrix(text: &str) -> MatrixIterator {
    MatrixIterator::new(text.chars().collect(), '\n')
}

#[test]
fn matrix_counts_rows_and_columns() {
    let mut m = matrix("ab\nc\n\nd");
    let mut seen = vec![m.locus()];
    while let Some(_) = m.next() {
        seen.push(m.locus());
    }
    assert_eq!(
        seen,
        vec![[1, 1], [1, 2], [1, 3], [2, 1], [2, 2], [3, 1], [4, 1], [4, 2]]
    );
    assert_eq!(m.next(), None);
    assert_eq!(m.locus(), [4, 2]);
    assert_eq!(m.get_range([1, 2]), [1, 2, 4, 2]);
}

#[test]
fn matrix_counts_the_rows_of_the_whole_input() {
    assert_eq!(matrix("").rows(), 1);
    assert_eq!(matrix("a").rows(), 1);
    assert_eq!(matrix("a\n").rows(), 1);
    assert_eq!(matrix("a\nb").rows(), 2);
    assert_eq!(matrix("a\nb\n").rows(), 2);
    assert_eq!(matrix("\n\n\n").rows(), 3);
    let mut m = MatrixIterator::new(
        vec!['1', '2', '3', '0', '4', '5', '6', '0', '7', '8', '9', '0'],
        '0',
    );
    assert_eq!(m.rows(), 3);
    assert_eq!(m.next(), None);
}

#[test]
fn matrix_goes_left_and_comes_back() {
    let mut m = matrix("ab\ncd");
    // There is nothing to go back to at the first position.
    m.left();
    assert_eq!(m.locus(), [1, 1]);
    m.next();
    m.next();
    m.next();
    m.next();
    assert_eq!(m.locus(), [2, 2]);
    m.left();
    assert_eq!(m.locus(), [2, 1]);
    m.left();
    assert_eq!(m.locus(), [1, 3]);
    m.left();
    assert_eq!(m.locus(), [1, 2]);
    // The position stays behind until it is brought in line again.
    m.next();
    assert_eq!(m.locus(), [1, 3]);
    m.right();
    assert_eq!(m.locus(), [1, 3]);
    m.cohere();
    assert_eq!(m.locus(), [2, 3]);
}

#[test]
fn queue_gives_back_what_was_pushed_first() {
    let mut iter = QueueIterator::new(MatrixIterator::new(vec!['4', '7'], '\n'));
    assert_eq!(iter.next(), Some('4'));
    iter.push('5');
    assert_eq!(iter.next(), Some('5'));
    iter.push('6');
    iter.push('7');
    assert_eq!(iter.next(), Some('6'));
    assert_eq!(iter.next(), Some('7'));
    assert_eq!(iter.next(), Some('7'));
    assert_eq!(iter.next(), None);
    iter.push('x');
    assert_eq!(iter.next(), Some('x'));
    assert_eq!(iter.next(), None);
}

#[test]
fn queue_leaves_the_position_where_it_was_on_a_pushed_character() {
    let mut iter = QueueIterator::new(matrix("ab"));
    iter.next();
    assert_eq!(iter.inner().locus(), [1, 2]);
    iter.push('a');
    iter.next();
    assert_eq!(iter.inner().locus(), [1, 2]);
    iter.inner_mut().left();
    assert_eq!(iter.inner().locus(), [1, 1]);
    iter.next();
    assert_eq!(iter.inner().locus(), [1, 2]);
}

#[test]
fn queue_reads_until_and_while() {
    let mut iter = QueueIterator::new(matrix("43167"));
    iter.next_until(|x| *x > '5');
    assert_eq!(iter.next(), Some('6'));
    assert_eq!(iter.next(), Some('7'));

    let mut iter = QueueIterator::new(matrix("1245:"));
    iter.next_while(|x| *x < '5');
    assert_eq!(iter.next(), Some('5'));
    assert_eq!(iter.next(), Some(':'));

    let mut iter = QueueIterator::new(matrix("abc"));
    iter.next_until(|x| *x == 'z');
    assert_eq!(iter.next(), None);
    let mut iter = QueueIterator::new(matrix("abc"));
    iter.next_while(|x| x.is_alphabetic());
    assert_eq!(iter.next(), None);
}

#[test]
fn queue_collects() {
    let mut iter = QueueIterator::new(matrix("The number is 1234"));
    let x = iter.collect_until(|ch| ch.is_numeric());
    assert_eq!(x, "The number is ");
    assert_eq!(iter.next(), Some('1'));
    assert_eq!(iter.next(), Some('2'));
    assert_eq!(iter.collect_next(1), "3");
    assert_eq!(iter.collect_next(5), "4");
    assert_eq!(iter.collect_next(5), "");
    assert_eq!(iter.collect_until(|_| true), "");

    let mut iter = QueueIterator::new(matrix("a>b>c"));
    assert_eq!(iter.find(|ch| *ch == '>'), Some('>'));
    assert_eq!(iter.next(), Some('b'));
    assert_eq!(iter.find(|ch| *ch == 'c'), Some('c'));
    assert_eq!(iter.find(|ch| *ch == 'c'), None);
}

#[test]
fn stack_gives_back_what_was_pushed_last() {
    let mut iter = StackIterator::new(MatrixIterator::new(vec!['1', '2', '3'], '\n'));
    assert_eq!(iter.next(), Some('1'));
    iter.push('6');
    assert_eq!(iter.next(), Some('6'));
    iter.push('7');
    iter.push('8');
    assert_eq!(iter.next(), Some('8'));
    assert_eq!(iter.next(), Some('7'));
    assert_eq!(iter.next(), Some('2'));
    assert_eq!(iter.inner().locus(), [1, 3]);
    assert_eq!(iter.next(), Some('3'));
    assert_eq!(iter.next(), None);
}
