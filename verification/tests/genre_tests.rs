use vibe_kanban::genres::{DependencyGenre, reorder_genres};

fn genre(id: u128, position: i32) -> DependencyGenre {
    DependencyGenre {
        id,
        project_id: 1,
        name: format!("genre {}", id),
        color: "#808080".to_string(),
        position,
        created_at: 0,
        updated_at: 0,
    }
}

#[test]
fn reorder_assigns_dense_positions_in_given_order() {
    let mut genres = vec![genre(1, 5), genre(2, 9), genre(3, 2)];
    reorder_genres(&mut genres, &vec![3, 1, 2], 100);
    assert_eq!(genres[0].position, 1);
    assert_eq!(genres[1].position, 2);
    assert_eq!(genres[2].position, 0);
    let mut positions: Vec<i32> = genres.iter().map(|g| g.position).collect();
    positions.sort();
    assert_eq!(positions, vec![0, 1, 2]);
}

#[test]
fn reorder_twice_equals_once() {
    let mut once = vec![genre(1, 5), genre(2, 9), genre(3, 2)];
    reorder_genres(&mut once, &vec![2, 3, 1], 100);
    let mut twice = once.clone();
    reorder_genres(&mut twice, &vec![2, 3, 1], 100);
    for (a, b) in once.iter().zip(twice.iter()) {
        assert_eq!(a.id, b.id);
        assert_eq!(a.position, b.position);
        assert_eq!(a.updated_at, b.updated_at);
    }
}

#[test]
fn unnamed_genres_keep_their_position() {
    let mut genres = vec![genre(1, 5), genre(2, 9)];
    reorder_genres(&mut genres, &vec![2], 100);
    assert_eq!(genres[0].position, 5);
    assert_eq!(genres[0].updated_at, 0);
    assert_eq!(genres[1].position, 0);
    assert_eq!(genres[1].updated_at, 100);
}
