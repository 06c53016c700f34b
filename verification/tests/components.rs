//! The text components and the plugin registry.

use exliar_vfio::colors::{PastelColor, Theme};
use exliar_vfio::border::{Border, BorderStyle};
use exliar_vfio::list::List;
use exliar_vfio::panel::Panel;
use exliar_vfio::plugin::{PluginContext, PluginManager, PluginError, VfioPlugin, load_plugin};

#[test]
fn theme_default_uses_the_stock_palette() {
    let t = Theme::default();
    assert!(matches!(t.primary, PastelColor::Lavender));
    assert!(matches!(t.accent, PastelColor::Pink));
    assert!(matches!(t.success, PastelColor::Mint));
}

#[test]
fn border_draws_edges_and_padded_content() {
    let b = Border::new(BorderStyle::Single, PastelColor::Lavender);
    assert_eq!(b.draw_top(6), "┌────┐");
    assert_eq!(b.draw_bottom(6), "└────┘");
    // "abc" is three columns wide, so five columns of padding remain
    assert_eq!(b.draw_content_line("abc", 10), "│abc     │");
    let r = Border::new(BorderStyle::Rounded, PastelColor::Mint);
    assert_eq!(r.draw_top(4), "╭──╮");
    assert_eq!(r.draw_bottom(4), "╰──╯");
    let d = Border::new(BorderStyle::Double, PastelColor::Pink);
    assert_eq!(d.draw_top(4), "╔══╗");
}

#[test]
fn border_centers_its_title() {
    let b = Border::new(BorderStyle::Single, PastelColor::Gray).with_title("hi");
    // inner width 8, title width 2: three dashes each side
    assert_eq!(b.draw_top(10), "┌───hi───┐");
}

#[test]
fn border_truncates_wide_content_to_an_ellipsis() {
    let b = Border::new(BorderStyle::Single, PastelColor::Gray);
    // inner width 6, content width 8: a 3-column prefix fits width - 5
    assert_eq!(b.draw_content_line("abcdefgh", 8), "│abc...│");
}

#[test]
fn border_width_accounts_for_wide_characters() {
    let b = Border::new(BorderStyle::Single, PastelColor::Gray);
    // the CJK character spans two columns, so six columns of padding remain
    assert_eq!(b.draw_content_line("日", 10), "│日      │");
}

#[test]
fn list_selection_wraps_both_ways() {
    let mut l: List<String> = List::new(20);
    assert!(l.is_empty());
    assert!(l.selected_item().is_none());
    l.add_item("one".to_string());
    l.add_item("two".to_string());
    l.add_item("three".to_string());
    assert_eq!(l.len(), 3);
    assert_eq!(l.selected_index(), 0);
    l.select_previous();
    assert_eq!(l.selected_index(), 2);
    l.select_next();
    assert_eq!(l.selected_index(), 0);
    l.select_next();
    assert_eq!(l.selected_index(), 1);
    assert_eq!(l.selected_item().unwrap(), "two");
    l.set_selected_index(7);
    assert_eq!(l.selected_index(), 1);
}

#[test]
fn list_set_items_clamps_the_selection() {
    let mut l: List<String> = List::new(20);
    l.set_items(vec!["a".to_string(), "b".to_string(), "c".to_string()]);
    l.set_selected_index(2);
    l.set_items(vec!["x".to_string(), "y".to_string()]);
    assert_eq!(l.selected_index(), 1);
    assert_eq!(l.items().len(), 2);
    l.set_items(Vec::new());
    assert_eq!(l.selected_index(), 0);
}

#[test]
fn list_render_marks_the_selection() {
    let mut l: List<String> = List::new(10);
    l.add_item("one".to_string());
    l.add_item("two".to_string());
    l.select_next();
    let text = l.render();
    assert_eq!(text, "   one   \n ✦ two   ");
}

#[test]
fn panel_renders_frame_and_rows() {
    let mut p = Panel::new(8, 4);
    p.add_line("hi");
    let text = p.render();
    assert_eq!(text, "╭──────╮\n│hi    │\n│      │\n╰──────╯");
}

#[test]
fn panel_scrolls_when_full_and_clears() {
    let mut p = Panel::new(10, 3);
    p.add_line("first");
    p.add_line("second");
    // one content row fits, so the older row scrolled off
    let text = p.render();
    assert!(text.contains("second"));
    assert!(!text.contains("first"));
    p.clear();
    assert_eq!(p.width(), 10);
    assert_eq!(p.height(), 3);
    let empty = p.render();
    assert!(!empty.contains("second"));
}

#[test]
fn panel_centers_and_separates() {
    let mut p = Panel::new(10, 5).with_border_style(BorderStyle::Single);
    p.add_centered_line("ab");
    p.add_separator();
    let text = p.render();
    assert!(text.contains("│   ab   │"));
    assert!(text.contains("│────────│"));
}

#[test]
fn panel_title_is_framed() {
    let p = Panel::new(10, 3).with_title("log");
    let text = p.render();
    assert!(text.starts_with("╭──log───╮"));
}

#[test]
fn context_stores_and_replaces_values() {
    let mut ctx = PluginContext::new();
    assert!(ctx.get("missing").is_none());
    ctx.set("gpu", "01:00.0".to_string());
    ctx.set("driver", "vfio-pci".to_string());
    assert_eq!(ctx.get("gpu").unwrap(), "01:00.0");
    ctx.set("gpu", "02:00.0".to_string());
    assert_eq!(ctx.get("gpu").unwrap(), "02:00.0");
    assert_eq!(ctx.get("driver").unwrap(), "vfio-pci");
    let removed = ctx.remove("gpu");
    assert_eq!(removed, Some("02:00.0".to_string()));
    assert!(ctx.get("gpu").is_none());
    assert_eq!(ctx.get("driver").unwrap(), "vfio-pci");
    assert!(ctx.remove("gpu").is_none());
}

struct GreeterPlugin;

impl VfioPlugin for GreeterPlugin {
    fn name(&self) -> String {
        "greeter".to_string()
    }

    fn version(&self) -> String {
        "1.0".to_string()
    }

    fn description(&self) -> String {
        "greets".to_string()
    }

    fn author(&self) -> String {
        "nobody".to_string()
    }

    fn on_load(&self, context: &mut PluginContext) -> Result<(), PluginError> {
        context.set("greeting", "hello".to_string());
        Ok(())
    }

    fn on_unload(&self, _context: &mut PluginContext) -> Result<(), PluginError> {
        Ok(())
    }
}

struct BrokenPlugin;

impl VfioPlugin for BrokenPlugin {
    fn name(&self) -> String {
        "broken".to_string()
    }

    fn version(&self) -> String {
        "0.0".to_string()
    }

    fn description(&self) -> String {
        "fails to load".to_string()
    }

    fn author(&self) -> String {
        "nobody".to_string()
    }

    fn on_load(&self, _context: &mut PluginContext) -> Result<(), PluginError> {
        Err(PluginError { message: "refused".to_string() })
    }

    fn on_unload(&self, _context: &mut PluginContext) -> Result<(), PluginError> {
        Ok(())
    }
}

#[test]
fn manager_registers_loadable_plugins_only() {
    let mut mgr = PluginManager::new();
    mgr.register_plugin(&GreeterPlugin).unwrap();
    let err = mgr.register_plugin(&BrokenPlugin).unwrap_err();
    assert_eq!(err.message, "refused");
    let listed = mgr.list_plugins();
    assert_eq!(listed.len(), 1);
    assert_eq!(listed[0].0, "greeter");
    assert_eq!(listed[0].1, "1.0");
    assert_eq!(mgr.contexts.len(), 1);
    assert_eq!(mgr.contexts[0].1.get("greeting").unwrap(), "hello");
}

#[test]
fn dynamic_loading_says_it_is_not_implemented() {
    let err = load_plugin("/usr/lib/whatever.so").unwrap_err();
    assert_eq!(err.message, "Dynamic plugin loading not implemented yet");
    assert_eq!(err.describe(), "Plugin error: Dynamic plugin loading not implemented yet");
}
