use app_units::Au;
use euclid::default::{Rect, Size2D};
use flow_layout::absolute::{AbsoluteDescendantInfo, AbsoluteDescendants, ContainingBlockLink, OpaqueFlow};
use flow_layout::flags::{
    ClearType, FloatKind, FlowClass, FlowFlags, ForceNonfloatedFlag, Position, RestyleDamage,
    AFFECTS_COUNTERS, BLOCK_POSITION_IS_STATIC, CAN_BE_FRAGMENTED, CLEARS_LEFT, CLEARS_RIGHT,
    FLOATS_LEFT, FLOATS_RIGHT, INLINE_POSITION_IS_STATIC, IS_ABSOLUTELY_POSITIONED, RECONSTRUCT_FLOW,
    REFLOW, REFLOW_OUT_OF_FLOW, REPAINT,
};
use flow_layout::flow::{BaseFlow, FlowStyle};
use flow_layout::geometry::{make_rect, LogicalRect, WritingMode};
use flow_layout::tree::FlowTree;

fn leaf_style(pref: i32, block: i32) -> FlowStyle {
    let mut s = FlowStyle::initial();
    s.content_minimum_inline_size = Au(pref / 2);
    s.content_preferred_inline_size = Au(pref);
    s.content_block_size = Au(block);
    s
}

fn add(tree: &mut FlowTree, class: FlowClass, style: FlowStyle, kids: Vec<usize>) -> usize {
    tree.add_flow(class, style, ForceNonfloatedFlag::FloatIfNecessary, kids).unwrap()
}

#[test]
fn float_kind_prefers_left() {
    let f = FlowFlags::from_bits(FLOATS_LEFT | FLOATS_RIGHT);
    assert_eq!(f.float_kind(), Some(FloatKind::Left));
    assert_eq!(FlowFlags::from_bits(FLOATS_RIGHT).float_kind(), Some(FloatKind::Right));
    assert_eq!(FlowFlags::empty().float_kind(), None);
}

#[test]
fn is_float_and_clears_floats() {
    assert!(FlowFlags::from_bits(FLOATS_RIGHT).is_float());
    assert!(!FlowFlags::from_bits(CLEARS_LEFT).is_float());
    assert!(FlowFlags::from_bits(CLEARS_RIGHT).clears_floats());
    assert!(!FlowFlags::from_bits(FLOATS_LEFT).clears_floats());
}

#[test]
fn flags_insert_remove_set() {
    let mut f = FlowFlags::empty();
    f.insert(CLEARS_LEFT);
    assert!(f.contains(CLEARS_LEFT));
    f.set(CLEARS_LEFT, false);
    assert!(!f.contains(CLEARS_LEFT));
    f.set(FLOATS_RIGHT, true);
    assert_eq!(f.bits, FLOATS_RIGHT);
    f.remove(FLOATS_RIGHT);
    assert!(f.is_empty());
}

#[test]
fn block_like_classes() {
    assert!(FlowClass::Block.is_block_like());
    assert!(FlowClass::TableCell.is_block_like());
    assert!(FlowClass::Flex.is_block_like());
    assert!(!FlowClass::Inline.is_block_like());
    assert!(!FlowClass::Multicol.is_block_like());
    assert!(!FlowClass::TableColGroup.is_block_like());
}

#[test]
fn absolute_descendants_basic_operations() {
    let mut a = AbsoluteDescendants::new();
    assert!(a.is_empty());
    a.push(3);
    a.push(5);
    assert_eq!(a.len(), 2);
    assert!(!a.descendant_links[0].has_reached_containing_block);
    let mut b = AbsoluteDescendants::default();
    b.push(7);
    a.push_descendants(b);
    assert_eq!(a.len(), 3);
    let mut it = a.iter();
    assert_eq!(it.size_hint(), (3, Some(3)));
    assert_eq!(it.next(), Some(3));
    assert_eq!(it.next(), Some(5));
    assert_eq!(it.next(), Some(7));
    assert_eq!(it.next(), None);
    a.mark_as_having_reached_containing_block();
    assert!(a.descendant_links.iter().all(|e| e.has_reached_containing_block));
    assert_eq!(a.descendant_links[2], AbsoluteDescendantInfo { flow: 7, has_reached_containing_block: true });
}

#[test]
fn containing_block_link_and_opaque_flow() {
    let mut link = ContainingBlockLink::new();
    assert_eq!(link.link, None);
    link.set(4);
    assert_eq!(link.link, Some(4));
    assert_eq!(OpaqueFlow::from_flow(9), OpaqueFlow(9));
}

#[test]
fn base_flow_initial_flags_and_damage() {
    let mut s = FlowStyle::initial();
    s.position = Position::Absolute;
    s.inline_start_is_auto = false;
    s.float = Some(FloatKind::Right);
    s.clear = Some(ClearType::Both);
    s.affects_counters = true;
    s.can_be_fragmented = true;
    let b = BaseFlow::new(Some(&s), s.writing_mode, ForceNonfloatedFlag::FloatIfNecessary);
    assert_eq!(
        b.flags.bits,
        CAN_BE_FRAGMENTED | IS_ABSOLUTELY_POSITIONED | BLOCK_POSITION_IS_STATIC | FLOATS_RIGHT
            | CLEARS_LEFT | CLEARS_RIGHT | AFFECTS_COUNTERS
    );
    assert_eq!(b.restyle_damage.bits, REPAINT | REFLOW_OUT_OF_FLOW | REFLOW);
    let forced = BaseFlow::new(Some(&s), s.writing_mode, ForceNonfloatedFlag::ForceNonfloated);
    assert!(!forced.flags.is_float());
    let none = BaseFlow::new(None, WritingMode::horizontal_tb(), ForceNonfloatedFlag::FloatIfNecessary);
    assert_eq!(none.flags.bits, BLOCK_POSITION_IS_STATIC | INLINE_POSITION_IS_STATIC);
    assert_eq!(RestyleDamage::rebuild_and_reflow().bits, REPAINT | REFLOW_OUT_OF_FLOW | REFLOW | RECONSTRUCT_FLOW);
}

#[test]
fn update_flags_follows_offsets() {
    let mut s = FlowStyle::initial();
    s.position = Position::Fixed;
    let mut b = BaseFlow::new(Some(&s), s.writing_mode, ForceNonfloatedFlag::FloatIfNecessary);
    assert!(b.flags.contains(INLINE_POSITION_IS_STATIC));
    s.inline_end_is_auto = false;
    b.update_flags_if_needed(&s);
    assert!(!b.flags.contains(INLINE_POSITION_IS_STATIC));
    assert!(b.flags.contains(BLOCK_POSITION_IS_STATIC));
}

#[test]
fn add_flow_rejects_shared_children() {
    let mut tree = FlowTree::new();
    let a = add(&mut tree, FlowClass::Block, leaf_style(10, 10), vec![]);
    assert_eq!(tree.add_flow(FlowClass::Block, FlowStyle::initial(), ForceNonfloatedFlag::FloatIfNecessary, vec![a, a]), None);
    assert_eq!(tree.add_flow(FlowClass::Block, FlowStyle::initial(), ForceNonfloatedFlag::FloatIfNecessary, vec![5]), None);
    let p = add(&mut tree, FlowClass::Block, FlowStyle::initial(), vec![a]);
    assert_eq!(tree.nodes[a].base.parallel.parent, Some(p));
    assert_eq!(tree.add_flow(FlowClass::Block, FlowStyle::initial(), ForceNonfloatedFlag::FloatIfNecessary, vec![a]), None);
    assert_eq!(tree.len(), 2);
}

#[test]
fn block_stack_scenario() {
    let mut tree = FlowTree::new();
    let a = add(&mut tree, FlowClass::Block, leaf_style(100, 10), vec![]);
    let b = add(&mut tree, FlowClass::Block, leaf_style(200, 20), vec![]);
    let c = add(&mut tree, FlowClass::Block, leaf_style(150, 30), vec![]);
    let root = add(&mut tree, FlowClass::Block, FlowStyle::initial(), vec![a, b, c]);
    tree.finish_construction(AbsoluteDescendants::new());
    tree.layout(Au(400));
    let r = &tree.nodes[root].base;
    assert!(tree.nodes[root].is_root);
    assert_eq!(r.intrinsic_inline_sizes.preferred_inline_size, Au(200));
    assert_eq!(r.intrinsic_inline_sizes.minimum_inline_size, Au(100));
    assert_eq!(r.position.size.inline, Au(400));
    assert_eq!(r.position.size.block, Au(60));
    for (k, kid) in [a, b, c].iter().enumerate() {
        assert_eq!(tree.nodes[*kid].base.position.size.inline, Au(400));
        assert_eq!(tree.nodes[*kid].base.block_container_inline_size, Au(400));
        assert_eq!(tree.nodes[*kid].base.position.start.b, Au([0, 10, 30][k]));
    }
}

#[test]
fn empty_flow_has_nothing() {
    let mut tree = FlowTree::new();
    let root = add(&mut tree, FlowClass::Block, FlowStyle::initial(), vec![]);
    tree.layout(Au(300));
    let b = &tree.nodes[root].base;
    assert_eq!(b.intrinsic_inline_sizes.minimum_inline_size, Au(0));
    assert_eq!(b.intrinsic_inline_sizes.preferred_inline_size, Au(0));
    assert_eq!(b.position.size.block, Au(0));
    tree.store_overflow(root);
    let o = tree.nodes[root].base.overflow;
    assert_eq!(o.paint.size.width, Au(300));
    assert_eq!(o.paint.size.height, Au(0));
    assert_eq!(o.scroll, o.paint);
}

#[test]
fn absolute_descendant_crossing_relative_parent() {
    let mut tree = FlowTree::new();
    let mut abs_style = leaf_style(50, 5);
    abs_style.position = Position::Absolute;
    abs_style.inline_start_is_auto = false;
    abs_style.inline_start_offset = Au(20);
    abs_style.block_start_is_auto = false;
    abs_style.block_start_offset = Au(10);
    let abs = add(&mut tree, FlowClass::Block, abs_style, vec![]);
    let mut rel = FlowStyle::initial();
    rel.position = Position::Relative;
    let span = add(&mut tree, FlowClass::Inline, rel, vec![abs]);
    let mut pending = AbsoluteDescendants::new();
    pending.push(abs);
    pending.mark_as_having_reached_containing_block();
    tree.take_applicable_absolute_descendants(span, &mut pending);
    assert!(pending.is_empty());
    assert_eq!(tree.nodes[abs].base.absolute_cb.link, Some(span));
    assert_eq!(tree.nodes[span].base.abs_descendants.len(), 1);
    let root = add(&mut tree, FlowClass::Block, FlowStyle::initial(), vec![span]);
    tree.finish_construction(pending);
    tree.layout(Au(600));
    assert_eq!(tree.nodes[abs].base.position.start.i, Au(20));
    assert_eq!(tree.nodes[abs].base.position.start.b, Au(10));
    assert_eq!(tree.nodes[abs].base.position.size.inline, Au(50));
    assert_eq!(tree.nodes[span].base.position.size.block, Au(0));
    assert_eq!(tree.nodes[root].base.position.size.block, Au(0));
}

#[test]
fn pending_absolute_descendant_reaches_root() {
    let mut tree = FlowTree::new();
    let mut abs_style = leaf_style(10, 10);
    abs_style.position = Position::Absolute;
    let abs = add(&mut tree, FlowClass::Block, abs_style, vec![]);
    let mid = add(&mut tree, FlowClass::Block, FlowStyle::initial(), vec![abs]);
    let mut pending = AbsoluteDescendants::new();
    pending.push(abs);
    tree.take_applicable_absolute_descendants(mid, &mut pending);
    assert_eq!(pending.len(), 1);
    assert!(tree.nodes[mid].base.abs_descendants.is_empty());
    let root = add(&mut tree, FlowClass::Block, FlowStyle::initial(), vec![mid]);
    tree.finish_construction(pending);
    assert_eq!(tree.nodes[abs].base.absolute_cb.link, Some(root));
    assert_eq!(tree.nodes[root].base.abs_descendants.descendant_links[0].flow, abs);
}

#[test]
fn set_and_push_absolute_descendants() {
    let mut tree = FlowTree::new();
    let mut abs_style = leaf_style(10, 10);
    abs_style.position = Position::Absolute;
    let x = add(&mut tree, FlowClass::Block, abs_style, vec![]);
    let y = add(&mut tree, FlowClass::Block, abs_style, vec![]);
    let mut rel = FlowStyle::initial();
    rel.position = Position::Relative;
    let cb = add(&mut tree, FlowClass::Block, rel, vec![x, y]);
    let mut first = AbsoluteDescendants::new();
    first.push(x);
    tree.set_absolute_descendants(cb, first);
    let mut second = AbsoluteDescendants::new();
    second.push(y);
    tree.push_absolute_descendants(cb, second);
    assert_eq!(tree.nodes[cb].base.abs_descendants.len(), 2);
    assert_eq!(tree.nodes[x].base.absolute_cb.link, Some(cb));
    assert_eq!(tree.nodes[y].base.absolute_cb.link, Some(cb));
}

#[test]
fn right_float_sits_at_the_end() {
    let mut tree = FlowTree::new();
    let mut fl = leaf_style(120, 10);
    fl.float = Some(FloatKind::Right);
    let f = add(&mut tree, FlowClass::Block, fl, vec![]);
    let root = add(&mut tree, FlowClass::Block, FlowStyle::initial(), vec![f]);
    tree.layout(Au(500));
    assert_eq!(tree.nodes[f].base.position.size.inline, Au(120));
    assert_eq!(tree.nodes[f].base.position.start.i, Au(380));
    assert_eq!(tree.nodes[root].base.intrinsic_inline_sizes.preferred_inline_size, Au(120));
}

#[test]
fn layout_twice_is_identical() {
    let mut tree = FlowTree::new();
    let a = add(&mut tree, FlowClass::Block, leaf_style(70, 15), vec![]);
    let b = add(&mut tree, FlowClass::Block, leaf_style(90, 25), vec![a]);
    let root = add(&mut tree, FlowClass::Block, FlowStyle::initial(), vec![b]);
    tree.layout(Au(250));
    let first: Vec<(Au, Au, Au, Au)> = tree
        .nodes
        .iter()
        .map(|n| (n.base.position.start.i, n.base.position.start.b, n.base.position.size.inline, n.base.position.size.block))
        .collect();
    tree.layout(Au(250));
    let second: Vec<(Au, Au, Au, Au)> = tree
        .nodes
        .iter()
        .map(|n| (n.base.position.start.i, n.base.position.start.b, n.base.position.size.inline, n.base.position.size.block))
        .collect();
    assert_eq!(first, second);
    assert_eq!(tree.nodes[root].base.position.size.block, Au(40));
}

#[test]
fn inorder_child_clears_reflow_damage() {
    let mut tree = FlowTree::new();
    let a = add(&mut tree, FlowClass::Block, leaf_style(10, 12), vec![]);
    assert!(!tree.assign_block_size_for_inorder_child_if_necessary(a, 3));
    assert!(tree.nodes[a].base.restyle_damage.contains(REFLOW));
    tree.nodes[a].base.speculated_float_placement_in.left = Au(5);
    assert!(tree.nodes[a].base.might_have_floats_in());
    assert!(tree.assign_block_size_for_inorder_child_if_necessary(a, 3));
    let d = tree.nodes[a].base.restyle_damage;
    assert!(!d.contains(REFLOW));
    assert!(!d.contains(REFLOW_OUT_OF_FLOW));
    assert!(d.contains(REPAINT));
    assert_eq!(tree.nodes[a].base.thread_id, 3);
    assert_eq!(tree.nodes[a].base.position.size.block, Au(12));
}

#[test]
fn non_invertible_transform_is_skipped_but_sized() {
    let mut tree = FlowTree::new();
    let mut s = leaf_style(10, 40);
    s.has_transform = true;
    s.transform_is_non_invertible = true;
    let culled = add(&mut tree, FlowClass::Block, s, vec![]);
    let mut sc = leaf_style(10, 5);
    sc.establishes_stacking_context = true;
    let own = add(&mut tree, FlowClass::Block, sc, vec![]);
    let plain = add(&mut tree, FlowClass::Block, leaf_style(10, 5), vec![]);
    let root = add(&mut tree, FlowClass::Block, FlowStyle::initial(), vec![culled, own, plain]);
    tree.layout(Au(100));
    assert!(tree.has_non_invertible_transform_or_zero_scale(culled));
    assert!(!tree.has_non_invertible_transform_or_zero_scale(own));
    tree.nodes[root].base.stacking_context_id = Some(flow_layout::flow::StackingContextId(0));
    tree.collect_stacking_contexts_for_children(root);
    assert_eq!(tree.nodes[culled].base.stacking_context_id, None);
    assert_eq!(tree.nodes[own].base.stacking_context_id, Some(flow_layout::flow::StackingContextId(own + 1)));
    assert_eq!(tree.nodes[plain].base.stacking_context_id, Some(flow_layout::flow::StackingContextId(0)));
    assert_eq!(tree.nodes[culled].base.position.size.block, Au(40));
    assert_eq!(tree.nodes[culled].base.position.size.inline, Au(100));
}

#[test]
fn hidden_overflow_is_clipped_to_border_box() {
    let mut tree = FlowTree::new();
    let kid = add(&mut tree, FlowClass::Block, leaf_style(10, 50), vec![]);
    let mut s = FlowStyle::initial();
    s.overflow_x_is_visible = false;
    let clip = add(&mut tree, FlowClass::Block, s, vec![kid]);
    let root = add(&mut tree, FlowClass::Block, FlowStyle::initial(), vec![clip]);
    tree.layout(Au(100));
    // The child reaches 300 wide, past the 100 wide parent.
    tree.nodes[kid].base.position.size.inline = Au(300);
    tree.store_overflow(kid);
    tree.store_overflow(clip);
    let o = tree.nodes[clip].base.overflow;
    assert_eq!(o.paint.origin.x, Au(0));
    assert_eq!(o.paint.size.width, Au(300));
    let up = tree.get_overflow_in_parent_coordinates(clip);
    assert_eq!(up.paint.origin.x, Au(0));
    assert_eq!(up.paint.size.width, Au(100));
    assert_eq!(up.scroll.size.width, Au(100));
    assert_eq!(up.paint.size.height, Au(50));
    tree.store_overflow(root);
    assert_eq!(tree.nodes[root].base.overflow.paint.size.width, Au(100));
}

#[test]
fn overflow_moves_with_position() {
    let mut tree = FlowTree::new();
    let a = add(&mut tree, FlowClass::Block, leaf_style(10, 20), vec![]);
    let b = add(&mut tree, FlowClass::Block, leaf_style(10, 30), vec![]);
    let root = add(&mut tree, FlowClass::Block, FlowStyle::initial(), vec![a, b]);
    tree.layout(Au(80));
    tree.store_overflow(a);
    tree.store_overflow(b);
    let up = tree.get_overflow_in_parent_coordinates(b);
    assert_eq!(up.paint.origin.y, Au(20));
    assert_eq!(up.paint.size.height, Au(30));
    tree.store_overflow(root);
    let o = tree.nodes[root].base.overflow.paint;
    assert_eq!((o.origin.x, o.origin.y, o.size.width, o.size.height), (Au(0), Au(0), Au(80), Au(50)));
}

#[test]
fn logical_physical_round_trip() {
    let container = Size2D::new(Au(1000), Au(800));
    let l = LogicalRect::new(Au(10), Au(20), Au(300), Au(40));
    let modes = [
        WritingMode::horizontal_tb(),
        WritingMode::new(false, false, true, false),
        WritingMode::new(true, false, false, false),
        WritingMode::new(true, true, true, false),
        WritingMode::new(true, false, true, true),
    ];
    for m in modes.iter() {
        let p = l.to_physical(*m, container);
        let back = LogicalRect::from_physical(*m, p, container);
        assert_eq!(
            (back.start.i, back.start.b, back.size.inline, back.size.block),
            (Au(10), Au(20), Au(300), Au(40))
        );
    }
}

#[test]
fn physical_conversion_values() {
    let container = Size2D::new(Au(1000), Au(800));
    let l = LogicalRect::new(Au(10), Au(20), Au(300), Au(40));
    let rtl = l.to_physical(WritingMode::new(false, false, true, false), container);
    assert_eq!(rtl, make_rect(Au(690), Au(20), Au(300), Au(40)));
    let vrl = l.to_physical(WritingMode::new(true, false, false, false), container);
    assert_eq!(vrl, make_rect(Au(940), Au(10), Au(40), Au(300)));
    let back: Rect<Au> = make_rect(Au(940), Au(10), Au(40), Au(300));
    let lr = LogicalRect::from_physical(WritingMode::new(true, false, false, false), back, container);
    assert_eq!(lr.start.b, Au(20));
}

#[test]
fn physical_conversion_clamps() {
    let container = Size2D::new(Au(0), Au(0));
    let l = LogicalRect::new(Au(1_000_000_000), Au(0), Au(1_000_000_000), Au(0));
    let p = l.to_physical(WritingMode::new(false, false, true, false), container);
    assert_eq!(p.origin.x, Au(-1073741823));
}

#[test]
fn containing_block_size_comes_from_the_link() {
    let mut tree = FlowTree::new();
    let mut abs_style = leaf_style(10, 10);
    abs_style.position = Position::Absolute;
    let abs = add(&mut tree, FlowClass::Block, abs_style, vec![]);
    let mut rel = leaf_style(0, 70);
    rel.position = Position::Relative;
    let cb = add(&mut tree, FlowClass::Block, rel, vec![abs]);
    let mut list = AbsoluteDescendants::new();
    list.push(abs);
    tree.set_absolute_descendants(cb, list);
    tree.layout(Au(320));
    let link = tree.nodes[abs].base.absolute_cb;
    let size = link.generated_containing_block_size(&tree, OpaqueFlow::from_flow(abs));
    assert_eq!(size.inline, Au(320));
    assert_eq!(size.block, Au(70));
}

#[test]
fn stacking_relative_positions_of_children() {
    let mut tree = FlowTree::new();
    let a = add(&mut tree, FlowClass::Block, leaf_style(10, 25), vec![]);
    let b = add(&mut tree, FlowClass::Block, leaf_style(10, 35), vec![]);
    let root = add(&mut tree, FlowClass::Block, FlowStyle::initial(), vec![a, b]);
    tree.layout(Au(90));
    tree.nodes[root].base.stacking_relative_position = euclid::default::Vector2D::new(Au(7), Au(3));
    tree.compute_stacking_relative_position(root);
    assert_eq!(tree.nodes[a].base.stacking_relative_position, euclid::default::Vector2D::new(Au(7), Au(3)));
    assert_eq!(tree.nodes[b].base.stacking_relative_position, euclid::default::Vector2D::new(Au(7), Au(28)));
    tree.nodes[root].style.establishes_stacking_context = true;
    tree.compute_stacking_relative_position(root);
    assert_eq!(tree.nodes[b].base.stacking_relative_position, euclid::default::Vector2D::new(Au(0), Au(25)));
}

#[test]
fn list_item_clips_and_gathers_overflow() {
    let mut tree = FlowTree::new();
    let kid = add(&mut tree, FlowClass::Block, leaf_style(10, 50), vec![]);
    let mut s = FlowStyle::initial();
    s.overflow_x_is_visible = false;
    let item = add(&mut tree, FlowClass::ListItem, s, vec![kid]);
    let root = add(&mut tree, FlowClass::Block, FlowStyle::initial(), vec![item]);
    tree.layout(Au(100));
    tree.nodes[kid].base.position.size.inline = Au(300);
    tree.store_overflow(kid);
    tree.store_overflow(item);
    assert_eq!(tree.nodes[item].base.overflow.paint.size.width, Au(300));
    let up = tree.get_overflow_in_parent_coordinates(item);
    assert_eq!(up.paint.size.width, Au(100));
    assert_eq!(up.scroll.size.width, Au(100));
    assert_eq!(up.paint.size.height, Au(50));
    tree.store_overflow(root);
    assert_eq!(tree.nodes[root].base.overflow.paint.size.width, Au(100));
}

#[test]
fn inline_flow_does_not_gather_children_overflow() {
    let mut tree = FlowTree::new();
    let kid = add(&mut tree, FlowClass::Block, leaf_style(10, 50), vec![]);
    let inline = add(&mut tree, FlowClass::Inline, FlowStyle::initial(), vec![kid]);
    tree.layout(Au(100));
    assert_eq!(tree.nodes[inline].base.overflow.paint.size.height, Au(50));
    tree.nodes[kid].base.position.size.block = Au(500);
    tree.store_overflow(kid);
    tree.store_overflow(inline);
    assert_eq!(tree.nodes[inline].base.overflow.paint.size.height, Au(50));
}

#[test]
fn layout_runs_every_pass() {
    let mut tree = FlowTree::new();
    let a = add(&mut tree, FlowClass::Block, leaf_style(10, 20), vec![]);
    let mut sc = leaf_style(10, 30);
    sc.establishes_stacking_context = true;
    let b = add(&mut tree, FlowClass::Block, sc, vec![]);
    let c = add(&mut tree, FlowClass::Block, leaf_style(10, 5), vec![]);
    let inner = add(&mut tree, FlowClass::Block, FlowStyle::initial(), vec![c]);
    let root = add(&mut tree, FlowClass::Block, FlowStyle::initial(), vec![a, b, inner]);
    tree.layout(Au(80));
    let o = tree.nodes[root].base.overflow.paint;
    assert_eq!((o.origin.x, o.origin.y, o.size.width, o.size.height), (Au(0), Au(0), Au(80), Au(55)));
    assert_eq!(tree.nodes[b].base.stacking_relative_position, euclid::default::Vector2D::new(Au(0), Au(20)));
    assert_eq!(tree.nodes[inner].base.stacking_relative_position, euclid::default::Vector2D::new(Au(0), Au(50)));
    assert_eq!(tree.nodes[c].base.stacking_relative_position, euclid::default::Vector2D::new(Au(0), Au(50)));
    let id = |x: usize| tree.nodes[x].base.stacking_context_id;
    assert_eq!(id(root), Some(flow_layout::flow::StackingContextId(0)));
    assert_eq!(id(a), Some(flow_layout::flow::StackingContextId(0)));
    assert_eq!(id(b), Some(flow_layout::flow::StackingContextId(b + 1)));
    assert_eq!(id(c), Some(flow_layout::flow::StackingContextId(0)));
}

#[test]
fn new_flow_starts_empty() {
    let b = BaseFlow::new(None, WritingMode::horizontal_tb(), ForceNonfloatedFlag::FloatIfNecessary);
    assert_eq!(b.overflow.paint, make_rect(Au(0), Au(0), Au(0), Au(0)));
    assert_eq!(b.overflow.scroll, b.overflow.paint);
    assert_eq!(b.clip, make_rect(Au(-536870911), Au(-536870911), Au(1073741823), Au(1073741823)));
    assert_eq!(b.stacking_context_id, None);
}

#[test]
fn baseline_of_last_line_box() {
    let mut tree = FlowTree::new();
    let a = add(&mut tree, FlowClass::Block, leaf_style(10, 20), vec![]);
    let mut inl = leaf_style(10, 30);
    inl.last_line_baseline = Some(Au(12));
    let line = add(&mut tree, FlowClass::Inline, inl, vec![]);
    let mut abs_style = leaf_style(10, 10);
    abs_style.position = Position::Absolute;
    let mut abs_inner_style = leaf_style(10, 10);
    abs_inner_style.last_line_baseline = Some(Au(3));
    let abs_inner = add(&mut tree, FlowClass::Inline, abs_inner_style, vec![]);
    let abs = add(&mut tree, FlowClass::Block, abs_style, vec![abs_inner]);
    let root = add(&mut tree, FlowClass::Block, FlowStyle::initial(), vec![a, line, abs]);
    tree.layout(Au(100));
    assert_eq!(tree.baseline_offset_of_last_line_box_in_flow(root), Some(Au(32)));
    assert_eq!(tree.baseline_offset_of_last_line_box_in_flow(a), None);
}

#[test]
fn baseline_found_inside_block_child() {
    let mut tree = FlowTree::new();
    let first = add(&mut tree, FlowClass::Block, leaf_style(10, 40), vec![]);
    let mut inl = leaf_style(10, 8);
    inl.last_line_baseline = Some(Au(5));
    let line = add(&mut tree, FlowClass::Inline, inl, vec![]);
    let blk = add(&mut tree, FlowClass::Block, leaf_style(10, 2), vec![line]);
    let root = add(&mut tree, FlowClass::Block, FlowStyle::initial(), vec![first, blk]);
    tree.layout(Au(100));
    assert_eq!(tree.nodes[blk].base.position.start.b, Au(40));
    assert_eq!(tree.nodes[line].base.position.start.b, Au(2));
    assert_eq!(tree.baseline_offset_of_last_line_box_in_flow(root), Some(Au(47)));
}

#[test]
fn fragment_is_atomic_and_sizes_subtree() {
    let mut tree = FlowTree::new();
    let a = add(&mut tree, FlowClass::Block, leaf_style(10, 300), vec![]);
    let b = add(&mut tree, FlowClass::Block, leaf_style(10, 400), vec![]);
    let tall = add(&mut tree, FlowClass::Block, FlowStyle::initial(), vec![a, b]);
    let other = add(&mut tree, FlowClass::Block, leaf_style(10, 9), vec![]);
    let _root = add(&mut tree, FlowClass::Block, FlowStyle::initial(), vec![tall, other]);
    let ctx = flow_layout::flow::FragmentationContext {
        available_block_size: Au(500),
        this_fragment_is_empty: true,
    };
    assert_eq!(tree.fragment(tall, Some(ctx)), None);
    assert_eq!(tree.nodes[tall].base.position.size.block, Au(700));
    assert_eq!(tree.nodes[b].base.position.start.b, Au(300));
    assert_eq!(tree.nodes[a].base.position.size.block, Au(300));
    // Flows outside the subtree are untouched.
    assert_eq!(tree.nodes[other].base.position.size.block, Au(0));
    assert!(tree.is_in_subtree(a, tall));
    assert!(!tree.is_in_subtree(other, tall));
}

#[test]
fn containing_block_predicates() {
    let mut tree = FlowTree::new();
    let mut fixed = FlowStyle::initial();
    fixed.position = Position::Fixed;
    let f = add(&mut tree, FlowClass::Block, fixed, vec![]);
    let mut rel = FlowStyle::initial();
    rel.position = Position::Relative;
    let r = add(&mut tree, FlowClass::Inline, rel, vec![f]);
    let root = add(&mut tree, FlowClass::Block, FlowStyle::initial(), vec![r]);
    tree.finish_construction(AbsoluteDescendants::new());
    assert!(tree.is_fixed(f));
    assert!(tree.is_absolute_containing_block(f));
    assert!(!tree.contains_relatively_positioned_fragments(f));
    assert!(tree.contains_relatively_positioned_fragments(r));
    assert!(tree.contains_roots_of_absolute_flow_tree(r));
    assert!(tree.contains_roots_of_absolute_flow_tree(root));
    assert!(!tree.is_absolute_containing_block(root));
    assert_eq!(tree.positioning(root), Position::Static);
    tree.layout(Au(50));
    assert_eq!(tree.clipping_and_scrolling(root), flow_layout::flow::StackingContextId(0));
}

#[test]
fn reached_entries_are_detected() {
    let mut a = AbsoluteDescendants::new();
    a.push(1);
    assert!(!a.has_entries_that_reached_containing_block());
    a.mark_as_having_reached_containing_block();
    assert!(a.has_entries_that_reached_containing_block());
}
