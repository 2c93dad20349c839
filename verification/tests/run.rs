use tensor_shards::utils::run::{after, first, Next};

/// Does steps with the given outcomes: which were done, and what came of them.
fn run(outcomes: &[Result<(), &'static str>]) -> (Vec<usize>, Result<(), &'static str>) {
    let n = outcomes.len();
    let mut done = Vec::new();
    let mut next = first(n);
    loop {
        match next {
            Next::Do(i) => {
                done.push(i);
                next = after(n, i, outcomes[i]);
            }
            Next::Done => return (done, Ok(())),
            Next::Failed(e) => return (done, Err(e)),
        }
    }
}

#[test]
fn all_steps_are_done_in_turn() {
    assert_eq!(run(&[]), (vec![], Ok(())));
    assert_eq!(run(&[Ok(()), Ok(()), Ok(())]), (vec![0, 1, 2], Ok(())));
}

#[test]
fn the_first_failure_ends_the_steps() {
    assert_eq!(run(&[Ok(()), Err("a"), Ok(()), Err("b")]), (vec![0, 1], Err("a")));
    assert_eq!(run(&[Err("a"), Ok(())]), (vec![0], Err("a")));
    assert_eq!(run(&[Ok(()), Err("b")]), (vec![0, 1], Err("b")));
}
