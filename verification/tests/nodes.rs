use kartoteka::graph::NodeType;
use kartoteka::nodes::{aliases_text, identifiers_text, node_form};

fn s(x: &str) -> String {
    x.to_string()
}

#[test]
fn node_form_needs_a_label() {
    assert_eq!(node_form("   ", 0, "", "").unwrap_err(), "A node needs a label");
}

#[test]
fn node_form_parses_the_fields() {
    let f = node_form(
        "  Hannah Arendt ",
        0,
        " Arendt, , H. Arendt ,",
        "doi: 10.1/x\n isbn : 978 \nbad\ndoi: 10.2/y\nempty:  ",
    )
    .unwrap();
    assert_eq!(f.label, "Hannah Arendt");
    assert_eq!(f.node_type, NodeType::Person);
    assert_eq!(f.aliases, vec![s("Arendt"), s("H. Arendt")]);
    assert_eq!(f.identifiers, vec![(s("doi"), s("10.2/y")), (s("isbn"), s("978"))]);
}

#[test]
fn node_form_type_follows_the_dropdown() {
    assert_eq!(node_form("x", 2, "", "").unwrap().node_type, NodeType::School);
    assert_eq!(node_form("x", 5, "", "").unwrap().node_type, NodeType::WorkUncataloged);
    assert_eq!(node_form("x", 99, "", "").unwrap().node_type, NodeType::Concept);
}

#[test]
fn node_fields_are_shown_as_typed() {
    assert_eq!(aliases_text(&vec![s("Arendt"), s("H. Arendt")]), "Arendt, H. Arendt");
    assert_eq!(
        identifiers_text(&vec![(s("doi"), s("10.2/y")), (s("isbn"), s("978"))]),
        "doi: 10.2/y\nisbn: 978"
    );
    assert_eq!(aliases_text(&vec![]), "");
}
