use aeroflow_runtime::codegen::{
    generate_flutter, generate_kotlin, generate_swift, Component, Layout, Screen, State,
};

fn home_screen() -> Screen {
    Screen {
        name: "Home".to_string(),
        states: vec![State {
            name: "count".to_string(),
            kind_name: "Int".to_string(),
            initial_value: "0".to_string(),
        }],
        layout: Layout {
            component: "Column".to_string(),
            children: vec![
                Component { name: "Text".to_string(), text: Some("...".to_string()), modifiers: vec![] },
                Component { name: "Button".to_string(), text: None, modifiers: vec![] },
            ],
        },
    }
}

#[test]
fn flutter_output_is_exact() {
    let code = generate_flutter(&[home_screen()]);
    let expected = "import 'package:flutter/material.dart';\n\n\
        class Home extends StatelessWidget {\n  @override\n  \
        Widget build(BuildContext context) {\n    return Scaffold(\n      \
        body: Column(\n        children: [\n\
        \u{20}         Text('Text'),\n\
        \u{20}         Text('Button'),\n\
        \u{20}       ],\n      ),\n    );\n  }\n}\n\n";
    assert_eq!(code, expected);
}

#[test]
fn kotlin_output_is_exact() {
    let code = generate_kotlin(&[home_screen()]);
    let expected = "import androidx.compose.runtime.*\n\
        import androidx.compose.foundation.layout.*\n\n\
        @Composable\nfun Home() {\n  Column() {\n\
        \u{20}   Text(text = \"Text\")\n\
        \u{20}   Text(text = \"Button\")\n\
        \u{20} }\n}\n\n";
    assert_eq!(code, expected);
}

#[test]
fn swift_output_is_exact() {
    let code = generate_swift(&[home_screen()]);
    let expected = "import SwiftUI\n\n\
        struct Home: View {\n  var body: some View {\n    VStack {\n\
        \u{20}     Text(\"Text\")\n\
        \u{20}     Text(\"Button\")\n\
        \u{20}   }\n  }\n}\n\n";
    assert_eq!(code, expected);
}

#[test]
fn empty_input_gives_only_the_header() {
    assert_eq!(
        generate_flutter(&[]),
        "import 'package:flutter/material.dart';\n\n"
    );
    assert_eq!(generate_swift(&[]), "import SwiftUI\n\n");
}
