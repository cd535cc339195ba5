use entity_store::entity::Entity;
use entity_store::join::{join2, join3};
use entity_store::storage::Storage;

#[test]
fn join2_keeps_the_rows_found_in_the_probed_table_in_order() {
    let names = ["a", "b", "c", "d"];
    let rows: Vec<(Entity, &&str)> = vec![
        (Entity(4), &names[3]),
        (Entity(1), &names[0]),
        (Entity(3), &names[2]),
        (Entity(2), &names[1]),
    ];
    let mut weights: Storage<u32> = Storage::new();
    weights.insert(Entity(2), 20);
    weights.insert(Entity(4), 40);
    weights.insert(Entity(9), 90);
    let out = join2(rows, &weights);
    assert_eq!(out, vec![(Entity(4), &"d", &40), (Entity(2), &"b", &20)]);
}

#[test]
fn join2_of_no_rows_or_an_empty_table_is_empty() {
    let value = 1u8;
    let mut table: Storage<u8> = Storage::new();
    let empty: Storage<u8> = Storage::new();
    table.insert(Entity(1), 5);
    assert!(join2(Vec::<(Entity, &u8)>::new(), &table).is_empty());
    assert!(join2(vec![(Entity(1), &value)], &empty).is_empty());
}

#[test]
fn join2_keeps_a_row_that_is_listed_twice_twice() {
    let value = 7u8;
    let mut table: Storage<u8> = Storage::new();
    table.insert(Entity(1), 5);
    let out = join2(vec![(Entity(1), &value), (Entity(1), &value)], &table);
    assert_eq!(out, vec![(Entity(1), &7, &5), (Entity(1), &7, &5)]);
}

#[test]
fn join3_keeps_the_rows_found_in_both_probed_tables_in_order() {
    let values = [10u8, 20, 30, 40];
    let rows: Vec<(Entity, &u8)> = vec![
        (Entity(3), &values[2]),
        (Entity(1), &values[0]),
        (Entity(4), &values[3]),
        (Entity(2), &values[1]),
    ];
    let mut b: Storage<char> = Storage::new();
    let mut c: Storage<bool> = Storage::new();
    for (id, ch) in [(1u32, 'x'), (3, 'y'), (4, 'z')] {
        b.insert(Entity(id), ch);
    }
    for (id, flag) in [(2u32, true), (3, false), (1, true)] {
        c.insert(Entity(id), flag);
    }
    let out = join3(rows, &b, &c);
    assert_eq!(
        out,
        vec![(Entity(3), &30, &'y', &false), (Entity(1), &10, &'x', &true)]
    );
}
