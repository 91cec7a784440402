use ilp::table::{generate_table, MAX_VARIABLES};
use ilp::{get_table, TableError};

#[test]
fn when_size_3_then_3() {
    let input = vec!["p1".to_string(), "p2".to_string(), "p3".to_string()];
    let expect = 2_i32.pow(input.len() as u32);

    let result = generate_table(&input);

    assert_eq!(result.len() as i32, expect);
}

#[test]
fn rows_follow_the_bits_of_their_index() {
    let names = vec!["p1".to_string(), "p2".to_string(), "p3".to_string()];
    let table = get_table(&names).unwrap();
    assert_eq!(table.len(), 8);
    for (i, row) in table.iter().enumerate() {
        for (j, name) in names.iter().enumerate() {
            assert_eq!(row.get(name), Some((i >> j) & 1 == 1));
        }
    }
    assert_eq!(table[5].get(&"p1".to_string()), Some(true));
    assert_eq!(table[5].get(&"p2".to_string()), Some(false));
    assert_eq!(table[5].get(&"p3".to_string()), Some(true));
}

#[test]
fn no_variables_give_one_empty_row() {
    let table = get_table(&Vec::new()).unwrap();
    assert_eq!(table.len(), 1);
    assert_eq!(table[0].get(&"p1".to_string()), None);
}

#[test]
fn too_many_variables_are_refused() {
    let names: Vec<String> = (0..=MAX_VARIABLES).map(|i| format!("p{}", i)).collect();
    assert_eq!(
        get_table(&names).err(),
        Some(TableError::TooManyVariables { count: MAX_VARIABLES + 1, limit: MAX_VARIABLES })
    );
}
