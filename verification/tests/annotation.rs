use snipe::annotation::{apply_pixel_filters, AnnotationItem, BlurShape, CommandStack, MosaicShape, PixelFilter};
use snipe::color::ColorRgba;
use snipe::coordinates::ImagePxRect;
use snipe::filter::{apply_box_blur, apply_mosaic};
use snipe::frame::{Frame, PixelFormat};

#[derive(Debug, Clone, PartialEq)]
struct RectShape {
    x: f32,
    y: f32,
    width: f32,
    height: f32,
    stroke_color: ColorRgba,
    stroke_width: f32,
    fill_color: Option<ColorRgba>,
}

#[test]
fn test_undo_redo() {
    let mut stack = CommandStack::new();
    let rect = AnnotationItem::new(RectShape {
        x: 10.0,
        y: 10.0,
        width: 100.0,
        height: 50.0,
        stroke_color: ColorRgba::rgb(255, 0, 0),
        stroke_width: 2.0,
        fill_color: None,
    });

    stack.add_item(rect);
    assert_eq!(stack.items().len(), 1);
    assert!(stack.can_undo());
    assert!(!stack.can_redo());

    stack.undo();
    assert_eq!(stack.items().len(), 0);
    assert!(stack.can_redo());

    stack.redo();
    assert_eq!(stack.items().len(), 1);
}

fn ids<K>(stack: &CommandStack<K>) -> Vec<String>
where
    K: Clone,
{
    stack.items().iter().map(|it| it.id.clone()).collect()
}

#[test]
fn new_items_get_fresh_identifiers() {
    let a = AnnotationItem::new(1u32);
    let b = AnnotationItem::new(1u32);
    assert_eq!(a.id.len(), 36);
    assert_ne!(a.id, b.id);
    assert!(a.visible);
    let c: Vec<char> = a.id.chars().collect();
    for (i, ch) in c.iter().enumerate() {
        if i == 8 || i == 13 || i == 18 || i == 23 {
            assert_eq!(*ch, '-');
        } else {
            assert!(ch.is_ascii_digit() || ('a'..='f').contains(ch));
        }
    }
    assert_eq!(c[14], '4');
    assert!(['8', '9', 'a', 'b'].contains(&c[19]));
}

#[test]
fn add_undo_redo_restores_states() {
    let mut stack: CommandStack<u32> = CommandStack::default();
    stack.add_item(AnnotationItem::new(1));
    let after_first = ids(&stack);
    stack.add_item(AnnotationItem::new(2));
    let after_second = ids(&stack);
    assert!(stack.undo());
    assert_eq!(ids(&stack), after_first);
    assert!(stack.redo());
    assert_eq!(ids(&stack), after_second);
    assert!(!stack.redo());
    assert!(stack.undo());
    assert!(stack.undo());
    assert!(stack.items().is_empty());
    assert!(!stack.undo());
    assert!(!stack.can_undo());
}

#[test]
fn remove_then_undo_brings_item_back() {
    let mut stack: CommandStack<u32> = CommandStack::new();
    stack.add_item(AnnotationItem::new(1));
    stack.add_item(AnnotationItem::new(2));
    stack.add_item(AnnotationItem::new(3));
    let before = ids(&stack);
    assert!(!stack.remove_item("no such id"));
    assert!(stack.remove_item(&before[0]));
    assert_eq!(ids(&stack), vec![before[1].clone(), before[2].clone()]);
    assert!(stack.undo());
    assert_eq!(ids(&stack), before);
    assert!(stack.redo());
    assert_eq!(ids(&stack), vec![before[1].clone(), before[2].clone()]);
}

#[test]
fn undo_and_redo_keep_the_stacking_order() {
    let mut stack: CommandStack<u32> = CommandStack::new();
    stack.add_item(AnnotationItem::new(1));
    stack.add_item(AnnotationItem::new(2));
    let both = ids(&stack);
    assert!(stack.remove_item(&both[0]));
    assert!(stack.undo());
    assert_eq!(ids(&stack), both);
    assert!(stack.undo());
    assert_eq!(ids(&stack), vec![both[0].clone()]);
    assert!(stack.redo());
    assert_eq!(ids(&stack), both);
    assert!(stack.remove_item(&both[1]));
    assert!(stack.remove_item(&both[0]));
    assert!(stack.undo());
    assert!(stack.undo());
    assert_eq!(ids(&stack), both);
}

#[test]
fn clear_then_undo_restores_everything() {
    let mut stack: CommandStack<u32> = CommandStack::new();
    stack.clear();
    assert!(!stack.can_undo());
    stack.add_item(AnnotationItem::new(7));
    stack.add_item(AnnotationItem::new(8));
    let before = ids(&stack);
    stack.clear();
    assert!(stack.items().is_empty());
    assert!(stack.undo());
    assert_eq!(ids(&stack), before);
    assert_eq!(stack.items()[1].kind, 8);
    assert!(stack.redo());
    assert!(stack.items().is_empty());
}

#[test]
fn a_new_edit_forgets_redo() {
    let mut stack: CommandStack<u32> = CommandStack::new();
    stack.add_item(AnnotationItem::new(1));
    stack.undo();
    assert!(stack.can_redo());
    stack.add_item(AnnotationItem::new(2));
    assert!(!stack.can_redo());
}

fn gradient(w: u32, h: u32) -> Frame {
    let pixels: Vec<u8> = (0..(w * h * 4)).map(|v| (v * 13 % 256) as u8).collect();
    Frame::new(w, h, w * 4, PixelFormat::Rgba8, pixels).unwrap()
}

#[test]
fn filter_pass_applies_filters_in_order() {
    let base = gradient(8, 6);
    let m = MosaicShape { rect: ImagePxRect::new(0, 0, 5, 5), block_size: 2 };
    let b = BlurShape { rect: ImagePxRect::new(2, 1, 5, 4), radius: 1 };
    let mut expected = base.clone();
    apply_mosaic(&mut expected, m.rect, m.block_size);
    apply_box_blur(&mut expected, b.rect, b.radius);
    let mut got = base.clone();
    apply_pixel_filters(&mut got, &[PixelFilter::Mosaic(m), PixelFilter::Blur(b)]);
    assert_eq!(got.pixels, expected.pixels);
    let mut untouched = base.clone();
    apply_pixel_filters(&mut untouched, &[]);
    assert_eq!(untouched.pixels, base.pixels);
}

#[test]
fn every_undo_is_reversed_by_a_redo_and_back() {
    let mut stack: CommandStack<u32> = CommandStack::new();
    for k in 0..4 {
        stack.add_item(AnnotationItem::new(k));
    }
    let all = ids(&stack);
    assert!(stack.remove_item(&all[1]));
    stack.clear();
    stack.add_item(AnnotationItem::new(9));
    let mut states = vec![ids(&stack)];
    while stack.can_undo() {
        assert!(stack.undo());
        states.push(ids(&stack));
    }
    assert_eq!(states.last().unwrap(), &Vec::<String>::new());
    assert_eq!(states[3], all);
    for back in (0..states.len() - 1).rev() {
        assert!(stack.redo());
        assert_eq!(ids(&stack), states[back]);
        assert!(stack.undo());
        assert_eq!(ids(&stack), states[back + 1]);
        assert!(stack.redo());
    }
    assert!(!stack.can_redo());
    assert!(!stack.redo());
    assert_eq!(ids(&stack), states[0]);
}
