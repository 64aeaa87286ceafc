use rustio_design::context::{build_context, layer, DesignMemory};
use rustio_design::spec::Spec;
use rustio_design::toml_lite::Document;

fn spec(toml: &str) -> Spec {
    Spec::new(Document::parse(toml).unwrap())
}

fn nothing() -> DesignMemory {
    DesignMemory {
        brief: None,
        reasoning: None,
        architecture: None,
        decisions: None,
        history: None,
    }
}

#[test]
fn absent_memory_renders_reserved_placeholders() {
    let s = spec("[project]\nname = \"Salon\"\n");
    let c = build_context(&s, ".", &nothing());
    assert!(c.starts_with("# rustio-design — canonical design context for `Salon`\n\n"));
    for p in [
        "./design/DESIGN_BRIEF.md",
        "./design/DESIGN_REASONING.md",
        "./design/DESIGN_ARCHITECTURE.md",
        "./design/DESIGN_DECISIONS.md",
        "./design/DESIGN_HISTORY.md",
    ] {
        let ph = format!("(reserved — `{p}` is not authored yet. Create it, or run `rustio-design init` to scaffold the design memory, then capture the design intent here.)\n");
        assert!(c.contains(&ph), "missing placeholder for {p}");
    }
}

#[test]
fn layers_come_in_canonical_order_with_frontmatter_stripped() {
    let s = spec("");
    let mem = DesignMemory {
        brief: Some("---\nstatus: draft\n---\n\n  Why we exist.  \n".to_string()),
        reasoning: Some("   \n".to_string()),
        architecture: Some("What we build.".to_string()),
        decisions: Some("---\nno closing delimiter".to_string()),
        history: None,
    };
    let c = build_context(&s, "proj", &mem);
    let bar = "=".repeat(78);
    assert!(c.contains(&format!("\n{bar}\n LAYER 1 · WHY — DESIGN BRIEF\n{bar}\n\nWhy we exist.\n")));
    assert!(c.contains("(reserved — `proj/design/DESIGN_REASONING.md` is not authored yet."));
    assert!(c.contains("What we build.\n"));
    assert!(c.contains("---\nno closing delimiter\n"));
    assert!(!c.contains("status: draft"));
    let order = [
        "LAYER 1 · WHY",
        "REASONING — DESIGN REASONING",
        "LAYER 2 · WHAT",
        "DESIGN DECISIONS (ledger)",
        "DESIGN HISTORY (evolution)",
        "LAYER 3 · HOW",
        "end of design context",
    ];
    let mut at = 0;
    for o in order {
        let k = c[at..].find(o).expect(o);
        at += k;
    }
    assert!(c.ends_with(&format!("\n{bar}\n end of design context — reason from the above, then justify any token\n change in DESIGN_REASONING.md before editing rustio.design.toml.\n{bar}\n")));
}

#[test]
fn token_layer_lists_brand_tokens_css_and_navigation() {
    let s = spec("[design]\nbrief = \"b.md\"\n[brand]\ncolor = \"#123\"\nderive = true\n[colors]\naccent = \"#f00\"\nacccent = \"#0f0\"\n[custom_css]\nrules = \"a{}\"\n[navigation]\nShop = \"Products, Orders\"\n_hidden = \"Items\"\n");
    let c = build_context(&s, "r", &nothing());
    assert!(c.contains("(reserved — `r/b.md` is not authored yet."));
    assert!(c.contains("brand: #123  (derive = true → WCAG-safe ramp via rustio-admin rio-theme)\n"));
    assert!(c.contains("token overrides:\n  --rio-accent: #f00\n  [colors].acccent = #0f0  (UNRESOLVED — run `rustio-design check`)\n"));
    assert!(c.contains("custom_css: present (validated escape hatch)\n"));
    assert!(c.contains("\nnavigation (compiled → generated/templates/admin/_sidebar.html):\n  Shop: Products, Orders\n  (hidden: Items)\n"));
}

#[test]
fn bare_spec_token_layer() {
    let c = build_context(&spec(""), ".", &nothing());
    assert!(c.contains("brand: (none set)\ntoken overrides: (none)\ncustom_css: none\nnavigation: (none declared — flat model list)\n"));
    let lit = build_context(&spec("[brand]\ncolor = \"#fff\"\n"), ".", &nothing());
    assert!(lit.contains("brand: #fff  (literal)\n"));
}

#[test]
fn one_layer_renders_body_or_placeholder() {
    let bar = "=".repeat(78);
    assert_eq!(
        layer("T", "p.md", &Some("  body  ".to_string())),
        format!("\n{bar}\n T\n{bar}\n\nbody\n")
    );
    assert_eq!(
        layer("T", "p.md", &None),
        format!("\n{bar}\n T\n{bar}\n\n(reserved — `p.md` is not authored yet. Create it, or run `rustio-design init` to scaffold the design memory, then capture the design intent here.)\n")
    );
}
