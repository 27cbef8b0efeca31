use arena_shooter::cooldown::Cooldown;
use arena_shooter::entity::{Components, MotionKind, Role, Shape, Tint};
use arena_shooter::layer::{CollisionLayers, Layer};
use arena_shooter::vector::{isqrt, Vec2};

#[test]
fn layer_bits_are_one_bit_each() {
    assert_eq!(Layer::Enemy.to_bits(), 1);
    assert_eq!(Layer::Player.to_bits(), 2);
    assert_eq!(Layer::Projectile.to_bits(), 4);
    assert_eq!(Layer::all_bits(), 7);
}

#[test]
fn enemy_layers_collide_with_everything() {
    let layers = Layer::enemy();
    assert_eq!(layers.groups_bits(), 1);
    assert_eq!(layers.masks_bits(), 7);
    assert!(layers.contains_group(Layer::Enemy));
    assert!(!layers.contains_group(Layer::Player));
    assert!(!layers.contains_group(Layer::Projectile));
    assert!(layers.contains_mask(Layer::Enemy));
    assert!(layers.contains_mask(Layer::Player));
    assert!(layers.contains_mask(Layer::Projectile));
}

#[test]
fn player_layers_collide_with_enemies() {
    let layers = Layer::player();
    assert_eq!(layers, CollisionLayers::from_bits(2, 1));
    assert!(layers.contains_group(Layer::Player));
    assert!(layers.contains_mask(Layer::Enemy));
    assert!(!layers.contains_mask(Layer::Player));
    assert!(!layers.contains_mask(Layer::Projectile));
}

#[test]
fn projectile_layers_collide_with_enemies() {
    let layers = Layer::projectile();
    assert_eq!(layers, CollisionLayers::from_bits(4, 1));
    assert!(layers.contains_group(Layer::Projectile));
    assert!(layers.contains_mask(Layer::Enemy));
    assert!(!layers.contains_mask(Layer::Projectile));
}

#[test]
fn builders_add_bits() {
    let layers = CollisionLayers::none().with_group(Layer::Player).with_group(Layer::Enemy);
    assert_eq!(layers, CollisionLayers { groups: 3, masks: 0 });
    let layers = layers.with_mask(Layer::Projectile).with_mask(Layer::Projectile);
    assert_eq!(layers, CollisionLayers { groups: 3, masks: 4 });
    assert_eq!(CollisionLayers::none(), CollisionLayers { groups: 0, masks: 0 });
}

#[test]
fn interaction_needs_both_directions() {
    let enemy = Layer::enemy();
    let player = Layer::player();
    let projectile = Layer::projectile();
    assert!(projectile.interacts_with(enemy));
    assert!(enemy.interacts_with(projectile));
    assert!(player.interacts_with(enemy));
    assert!(enemy.interacts_with(enemy));
    assert!(!projectile.interacts_with(projectile));
    assert!(!projectile.interacts_with(player));
    assert!(!player.interacts_with(projectile));
    assert!(!player.interacts_with(player));
    assert!(!CollisionLayers::none().interacts_with(enemy));
    assert!(!enemy.interacts_with(CollisionLayers::none()));
    let groups_only = CollisionLayers::from_bits(7, 0);
    let masks_only = CollisionLayers::from_bits(0, 7);
    assert!(!groups_only.interacts_with(masks_only));
    assert!(!masks_only.interacts_with(groups_only));
}

#[test]
fn integer_square_roots_round_down() {
    assert_eq!(isqrt(0), 0);
    assert_eq!(isqrt(1), 1);
    assert_eq!(isqrt(2), 1);
    assert_eq!(isqrt(3), 1);
    assert_eq!(isqrt(4), 2);
    assert_eq!(isqrt(15), 3);
    assert_eq!(isqrt(16), 4);
    assert_eq!(isqrt(31_250_000_000), 176_776);
    assert_eq!(isqrt(u128::MAX), u64::MAX);
    assert_eq!(isqrt((u64::MAX as u128) * (u64::MAX as u128)), u64::MAX);
    assert_eq!(isqrt((u64::MAX as u128) * (u64::MAX as u128) - 1), u64::MAX - 1);
}

#[test]
fn aim_keeps_direction_and_length() {
    let origin = Vec2::new(0, 0);
    assert_eq!(origin.aim_at(Vec2::new(600_000, 0), 300_000), Some(Vec2::new(300_000, 0)));
    assert_eq!(origin.aim_at(Vec2::new(-600_000, 0), 100_000), Some(Vec2::new(-100_000, 0)));
    assert_eq!(origin.aim_at(Vec2::new(0, -5), 100_000), Some(Vec2::new(0, -100_000)));
    assert_eq!(origin.aim_at(Vec2::new(3_000, 4_000), 100_000), Some(Vec2::new(60_000, 80_000)));
    assert_eq!(origin.aim_at(Vec2::new(-3_000, 4_000), 100_000), Some(Vec2::new(-60_000, 80_000)));
    assert_eq!(origin.aim_at(Vec2::new(1, 1), 250), Some(Vec2::new(176, 176)));
    assert_eq!(origin.aim_at(Vec2::new(-1, -1), 250), Some(Vec2::new(-176, -176)));
    assert_eq!(origin.aim_at(Vec2::new(7, 9), 0), Some(Vec2::new(0, 0)));
    assert_eq!(origin.aim_at(Vec2::new(1, 2), 1_000), Some(Vec2::new(447, 894)));
}

#[test]
fn aim_stays_in_range_at_the_extremes() {
    let low = Vec2::new(i32::MIN, i32::MIN);
    let high = Vec2::new(i32::MAX, i32::MAX);
    assert_eq!(
        low.aim_at(high, 2_147_483_647),
        Some(Vec2::new(1_518_500_249, 1_518_500_249))
    );
    assert_eq!(
        high.aim_at(low, 2_147_483_647),
        Some(Vec2::new(-1_518_500_249, -1_518_500_249))
    );
    assert_eq!(
        low.aim_at(Vec2::new(i32::MAX, i32::MIN), u32::MAX),
        Some(Vec2::new(i32::MAX, 0))
    );
    assert_eq!(
        high.aim_at(Vec2::new(i32::MIN, i32::MAX), u32::MAX),
        Some(Vec2::new(i32::MIN, 0))
    );
    assert_eq!(
        low.aim_at(Vec2::new(i32::MIN, i32::MAX), 2_147_483_648),
        Some(Vec2::new(0, i32::MAX))
    );
}

#[test]
fn aim_is_none_only_on_the_spot() {
    let here = Vec2::new(12, -7);
    assert_eq!(here.aim_at(here, 300_000), None);
    assert_eq!(here.aim_at(Vec2::new(13, -7), 300_000), Some(Vec2::new(300_000, 0)));
    assert_eq!(here.aim_at(Vec2::new(12, -8), 300_000), Some(Vec2::new(0, -300_000)));
    assert_eq!(
        Vec2::new(i32::MIN, i32::MIN).aim_at(Vec2::new(i32::MAX, i32::MIN), 100_000),
        Some(Vec2::new(100_000, 0))
    );
    assert_eq!(Vec2::zero(), Vec2::new(0, 0));
}

#[test]
fn moved_points_stay_in_range() {
    assert_eq!(Vec2::new(1, 2).moved_by(10, -20), Vec2::new(11, -18));
    assert_eq!(Vec2::new(i32::MAX - 5, 0).moved_by(6, 0), Vec2::new(i32::MAX, 0));
    assert_eq!(Vec2::new(0, i32::MIN + 5).moved_by(0, -6), Vec2::new(0, i32::MIN));
    assert_eq!(
        Vec2::new(0, 0).moved_by(i64::MAX, i64::MIN),
        Vec2::new(i32::MAX, i32::MIN)
    );
}

#[test]
fn cooldown_of_zero_is_refused() {
    assert_eq!(Cooldown::new(0), None);
    assert_eq!(Cooldown::new(1_000), Some(Cooldown { elapsed: 0, period: 1_000 }));
    assert!(Cooldown { elapsed: 0, period: 1 }.is_valid());
    assert!(!Cooldown { elapsed: 0, period: 0 }.is_valid());
    assert!(!Cooldown { elapsed: 5, period: 5 }.is_valid());
}

#[test]
fn malformed_cooldown_never_fires() {
    let mut zero = Cooldown { elapsed: 0, period: 0 };
    assert!(!zero.tick(5));
    assert_eq!(zero, Cooldown { elapsed: 0, period: 0 });
    let mut past = Cooldown { elapsed: 7, period: 5 };
    assert!(!past.tick(u32::MAX));
    assert_eq!(past, Cooldown { elapsed: 7, period: 5 });
}

#[test]
fn cooldown_fires_when_a_period_ends() {
    let mut cooldown = Cooldown::new(1_000).unwrap();
    assert!(!cooldown.tick(400));
    assert_eq!(cooldown.elapsed, 400);
    assert!(!cooldown.tick(599));
    assert_eq!(cooldown.elapsed, 999);
    assert!(cooldown.tick(1));
    assert_eq!(cooldown.elapsed, 0);
    assert!(!cooldown.tick(0));
    assert!(cooldown.tick(3_500));
    assert_eq!(cooldown.elapsed, 500);
    assert!(cooldown.tick(500));
    assert_eq!(cooldown.elapsed, 0);
    assert_eq!(cooldown.period, 1_000);
}

#[test]
fn cooldown_survives_the_longest_tick() {
    let mut short = Cooldown::new(1).unwrap();
    assert!(short.tick(u32::MAX));
    assert_eq!(short.elapsed, 0);
    let mut long = Cooldown { elapsed: u32::MAX - 1, period: u32::MAX };
    assert!(long.tick(u32::MAX));
    assert_eq!(long.elapsed, u32::MAX - 1);
    let mut odd = Cooldown { elapsed: 6, period: 7 };
    assert!(odd.tick(u32::MAX));
    assert_eq!(odd.elapsed, ((6u64 + u32::MAX as u64) % 7) as u32);
}

#[test]
fn constructors_fill_in_the_components() {
    let player = Components::player(Vec2::new(0, 0));
    assert_eq!(player.body.position, Vec2::new(0, 0));
    assert_eq!(player.body.scale, 40_000);
    assert_eq!(
        player.body.shape,
        Shape::Cuboid { half_extents: Vec2::new(20_000, 20_000) }
    );
    assert_eq!(player.body.motion, MotionKind::KinematicPosition);
    assert_eq!(player.layers, Layer::player());
    assert_eq!(player.tint, Tint::Green);
    assert_eq!(player.role, Role::Player { cooldown: Cooldown { elapsed: 0, period: 1_000 } });
    assert_eq!(player.velocity, Vec2::new(0, 0));

    let enemy = Components::enemy(Vec2::new(600_000, 0));
    assert_eq!(enemy.body.position, Vec2::new(600_000, 0));
    assert_eq!(enemy.body.scale, 40_000);
    assert_eq!(enemy.body.motion, MotionKind::Dynamic);
    assert_eq!(enemy.velocity, Vec2::new(0, 0));
    assert_eq!(enemy.layers, Layer::enemy());
    assert_eq!(enemy.tint, Tint::Red);
    assert_eq!(enemy.role, Role::Enemy);

    let shot = Components::projectile(Vec2::new(3, 4), Vec2::new(300_000, 0));
    assert_eq!(shot.body.position, Vec2::new(3, 4));
    assert_eq!(shot.body.scale, 5_000);
    assert_eq!(shot.body.shape, Shape::Sphere { radius: 2_500 });
    assert_eq!(shot.body.motion, MotionKind::KinematicVelocity);
    assert_eq!(shot.velocity, Vec2::new(300_000, 0));
    assert_eq!(shot.layers, Layer::projectile());
    assert_eq!(shot.tint, Tint::Blue);
    assert_eq!(shot.role, Role::Projectile { remaining: 1_000 });
}
