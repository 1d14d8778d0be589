//! The declarative interface model and its three code generators. Each
//! generator's output is stated character for character, as a function of
//! the screens it is given.

use crate::text::push_str_part;
use vstd::prelude::*;

verus! {

/// An application: its name, theme and entry screen.
pub struct App {
    pub name: String,
    pub theme: String,
    pub entry: String,
}

/// One named piece of screen state, with its type and initial value.
pub struct State {
    pub name: String,
    pub kind_name: String,
    pub initial_value: String,
}

/// One interface component.
pub struct Component {
    pub name: String,
    pub text: Option<String>,
    pub modifiers: Vec<String>,
}

/// A screen's layout: a root component with children.
pub struct Layout {
    pub component: String,
    pub children: Vec<Component>,
}

/// One screen: its name, state and layout.
pub struct Screen {
    pub name: String,
    pub states: Vec<State>,
    pub layout: Layout,
}

/// One child line of the first generator's output.
pub open spec fn flutter_child(c: Component) -> Seq<char> {
    "          Text('"@ + c.name@ + "'),\n"@
}

/// The child lines, in order.
pub open spec fn flutter_children(cs: Seq<Component>) -> Seq<char>
    decreases cs.len(),
{
    if cs.len() == 0 {
        Seq::empty()
    } else {
        flutter_children(cs.drop_last()) + flutter_child(cs.last())
    }
}

/// One screen of the first generator's output.
pub open spec fn flutter_screen(s: Screen) -> Seq<char> {
    "class "@ + s.name@
        + " extends StatelessWidget {\n  @override\n  Widget build(BuildContext context) {\n    return Scaffold(\n      body: Column(\n        children: [\n"@
        + flutter_children(s.layout.children@) + "        ],\n      ),\n    );\n  }\n}\n\n"@
}

/// The screens, in order.
pub open spec fn flutter_screens(ss: Seq<Screen>) -> Seq<char>
    decreases ss.len(),
{
    if ss.len() == 0 {
        Seq::empty()
    } else {
        flutter_screens(ss.drop_last()) + flutter_screen(ss.last())
    }
}

/// The first generator's whole output.
pub open spec fn flutter_code(ss: Seq<Screen>) -> Seq<char> {
    "import 'package:flutter/material.dart';\n\n"@ + flutter_screens(ss)
}

/// Renders the screens as widget classes for the Dart toolkit.
pub fn generate_flutter(screens: &[Screen]) -> (r: String)
    ensures
        r@ == flutter_code(screens@),
{
    let mut code = String::new();
    push_str_part("import 'package:flutter/material.dart';\n\n", &mut code);
    let mut i: usize = 0;
    while i < screens.len()
        invariant
            i <= screens@.len(),
            code@ == flutter_code(screens@.take(i as int)),
        decreases screens@.len() - i,
    {
        let screen = &screens[i];
        push_str_part("class ", &mut code);
        push_str_part(screen.name.as_str(), &mut code);
        push_str_part(
            " extends StatelessWidget {\n  @override\n  Widget build(BuildContext context) {\n    return Scaffold(\n      body: Column(\n        children: [\n",
            &mut code,
        );
        let mut j: usize = 0;
        while j < screen.layout.children.len()
            invariant
                j <= screen.layout.children@.len(),
                screen == &screens@[i as int],
                i < screens@.len(),
                code@ == flutter_code(screens@.take(i as int)) + "class "@ + screen.name@
                    + " extends StatelessWidget {\n  @override\n  Widget build(BuildContext context) {\n    return Scaffold(\n      body: Column(\n        children: [\n"@
                    + flutter_children(screen.layout.children@.take(j as int)),
            decreases screen.layout.children@.len() - j,
        {
            push_str_part("          Text('", &mut code);
            push_str_part(screen.layout.children[j].name.as_str(), &mut code);
            push_str_part("'),\n", &mut code);
            proof {
                let t = screen.layout.children@.take(j + 1);
                assert(t.drop_last() =~= screen.layout.children@.take(j as int));
                assert(t.last() == screen.layout.children@[j as int]);
                assert(code@ =~= flutter_code(screens@.take(i as int)) + "class "@ + screen.name@
                    + " extends StatelessWidget {\n  @override\n  Widget build(BuildContext context) {\n    return Scaffold(\n      body: Column(\n        children: [\n"@
                    + flutter_children(t));
            }
            j = j + 1;
        }
        push_str_part("        ],\n      ),\n    );\n  }\n}\n\n", &mut code);
        proof {
            let t = screens@.take(i + 1);
            assert(t.drop_last() =~= screens@.take(i as int));
            assert(t.last() == screens@[i as int]);
            assert(screen.layout.children@.take(screen.layout.children@.len() as int)
                =~= screen.layout.children@);
            assert(code@ =~= flutter_code(t));
        }
        i = i + 1;
    }
    proof {
        assert(screens@.take(screens@.len() as int) =~= screens@);
    }
    code
}

/// One child line of the second generator's output.
pub open spec fn kotlin_child(c: Component) -> Seq<char> {
    "    Text(text = \""@ + c.name@ + "\")\n"@
}

/// The child lines, in order.
pub open spec fn kotlin_children(cs: Seq<Component>) -> Seq<char>
    decreases cs.len(),
{
    if cs.len() == 0 {
        Seq::empty()
    } else {
        kotlin_children(cs.drop_last()) + kotlin_child(cs.last())
    }
}

/// One screen of the second generator's output.
pub open spec fn kotlin_screen(s: Screen) -> Seq<char> {
    "@Composable\nfun "@ + s.name@ + "() {\n  Column() {\n"@ + kotlin_children(
        s.layout.children@,
    ) + "  }\n}\n\n"@
}

/// The screens, in order.
pub open spec fn kotlin_screens(ss: Seq<Screen>) -> Seq<char>
    decreases ss.len(),
{
    if ss.len() == 0 {
        Seq::empty()
    } else {
        kotlin_screens(ss.drop_last()) + kotlin_screen(ss.last())
    }
}

/// The second generator's whole output.
pub open spec fn kotlin_code(ss: Seq<Screen>) -> Seq<char> {
    "import androidx.compose.runtime.*\nimport androidx.compose.foundation.layout.*\n\n"@
        + kotlin_screens(ss)
}

/// Renders the screens as composable functions for the Android toolkit.
pub fn generate_kotlin(screens: &[Screen]) -> (r: String)
    ensures
        r@ == kotlin_code(screens@),
{
    let mut code = String::new();
    push_str_part(
        "import androidx.compose.runtime.*\nimport androidx.compose.foundation.layout.*\n\n",
        &mut code,
    );
    let mut i: usize = 0;
    while i < screens.len()
        invariant
            i <= screens@.len(),
            code@ == kotlin_code(screens@.take(i as int)),
        decreases screens@.len() - i,
    {
        let screen = &screens[i];
        push_str_part("@Composable\nfun ", &mut code);
        push_str_part(screen.name.as_str(), &mut code);
        push_str_part("() {\n  Column() {\n", &mut code);
        let mut j: usize = 0;
        while j < screen.layout.children.len()
            invariant
                j <= screen.layout.children@.len(),
                screen == &screens@[i as int],
                i < screens@.len(),
                code@ == kotlin_code(screens@.take(i as int)) + "@Composable\nfun "@
                    + screen.name@ + "() {\n  Column() {\n"@ + kotlin_children(
                    screen.layout.children@.take(j as int),
                ),
            decreases screen.layout.children@.len() - j,
        {
            push_str_part("    Text(text = \"", &mut code);
            push_str_part(screen.layout.children[j].name.as_str(), &mut code);
            push_str_part("\")\n", &mut code);
            proof {
                let t = screen.layout.children@.take(j + 1);
                assert(t.drop_last() =~= screen.layout.children@.take(j as int));
                assert(t.last() == screen.layout.children@[j as int]);
                assert(code@ =~= kotlin_code(screens@.take(i as int)) + "@Composable\nfun "@
                    + screen.name@ + "() {\n  Column() {\n"@ + kotlin_children(t));
            }
            j = j + 1;
        }
        push_str_part("  }\n}\n\n", &mut code);
        proof {
            let t = screens@.take(i + 1);
            assert(t.drop_last() =~= screens@.take(i as int));
            assert(t.last() == screens@[i as int]);
            assert(screen.layout.children@.take(screen.layout.children@.len() as int)
                =~= screen.layout.children@);
            assert(code@ =~= kotlin_code(t));
        }
        i = i + 1;
    }
    proof {
        assert(screens@.take(screens@.len() as int) =~= screens@);
    }
    code
}

/// One child line of the third generator's output.
pub open spec fn swift_child(c: Component) -> Seq<char> {
    "      Text(\""@ + c.name@ + "\")\n"@
}

/// The child lines, in order.
pub open spec fn swift_children(cs: Seq<Component>) -> Seq<char>
    decreases cs.len(),
{
    if cs.len() == 0 {
        Seq::empty()
    } else {
        swift_children(cs.drop_last()) + swift_child(cs.last())
    }
}

/// One screen of the third generator's output.
pub open spec fn swift_screen(s: Screen) -> Seq<char> {
    "struct "@ + s.name@ + ": View {\n  var body: some View {\n    VStack {\n"@ + swift_children(
        s.layout.children@,
    ) + "    }\n  }\n}\n\n"@
}

/// The screens, in order.
pub open spec fn swift_screens(ss: Seq<Screen>) -> Seq<char>
    decreases ss.len(),
{
    if ss.len() == 0 {
        Seq::empty()
    } else {
        swift_screens(ss.drop_last()) + swift_screen(ss.last())
    }
}

/// The third generator's whole output.
pub open spec fn swift_code(ss: Seq<Screen>) -> Seq<char> {
    "import SwiftUI\n\n"@ + swift_screens(ss)
}

/// Renders the screens as views for the Apple toolkit.
pub fn generate_swift(screens: &[Screen]) -> (r: String)
    ensures
        r@ == swift_code(screens@),
{
    let mut code = String::new();
    push_str_part("import SwiftUI\n\n", &mut code);
    let mut i: usize = 0;
    while i < screens.len()
        invariant
            i <= screens@.len(),
            code@ == swift_code(screens@.take(i as int)),
        decreases screens@.len() - i,
    {
        let screen = &screens[i];
        push_str_part("struct ", &mut code);
        push_str_part(screen.name.as_str(), &mut code);
        push_str_part(": View {\n  var body: some View {\n    VStack {\n", &mut code);
        let mut j: usize = 0;
        while j < screen.layout.children.len()
            invariant
                j <= screen.layout.children@.len(),
                screen == &screens@[i as int],
                i < screens@.len(),
                code@ == swift_code(screens@.take(i as int)) + "struct "@ + screen.name@
                    + ": View {\n  var body: some View {\n    VStack {\n"@ + swift_children(
                    screen.layout.children@.take(j as int),
                ),
            decreases screen.layout.children@.len() - j,
        {
            push_str_part("      Text(\"", &mut code);
            push_str_part(screen.layout.children[j].name.as_str(), &mut code);
            push_str_part("\")\n", &mut code);
            proof {
                let t = screen.layout.children@.take(j + 1);
                assert(t.drop_last() =~= screen.layout.children@.take(j as int));
                assert(t.last() == screen.layout.children@[j as int]);
                assert(code@ =~= swift_code(screens@.take(i as int)) + "struct "@ + screen.name@
                    + ": View {\n  var body: some View {\n    VStack {\n"@ + swift_children(t));
            }
            j = j + 1;
        }
        push_str_part("    }\n  }\n}\n\n", &mut code);
        proof {
            let t = screens@.take(i + 1);
            assert(t.drop_last() =~= screens@.take(i as int));
            assert(t.last() == screens@[i as int]);
            assert(screen.layout.children@.take(screen.layout.children@.len() as int)
                =~= screen.layout.children@);
            assert(code@ =~= swift_code(t));
        }
        i = i + 1;
    }
    proof {
        assert(screens@.take(screens@.len() as int) =~= screens@);
    }
    code
}

} // verus!
