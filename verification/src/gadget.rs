//! USB gadget `ConfigFS` setup.

use crate::usb::{
    ADB_MANUFACTURER_EN, ADB_PRODUCT_EN, USB_LANG_EN_US, USB_PRODUCT_ID_ADB, USB_VENDOR_ID_GOOGLE,
};
use vstd::prelude::*;
use vstd::slice::slice_to_vec;
use vstd::string::{StringExecFns, StringSliceAdditionalSpecFns};
use vstd::utf8::encode_utf8;

verus! {

/// Where the `FunctionFS` instance is mounted.
pub const FFS_PATH: &'static str = "/run/muadib/ffs";

/// Where the gadget stands in `ConfigFS`.
pub const GADGET_PATH: &'static str = "/sys/kernel/config/usb_gadget/muadib";

/// One step of setting the gadget up.
#[derive(Debug)]
pub enum GadgetStep {
    /// Create a directory and all its parents, unless it is there.
    CreateDir { path: String },
    /// Write a file.
    Write { path: String, contents: Vec<u8> },
    /// Create a symbolic link, unless something is there.
    Link { target: String, link: String },
}

/// One step as a value.
pub enum GadgetStepView {
    CreateDir(Seq<char>),
    Write(Seq<char>, Seq<u8>),
    Link(Seq<char>, Seq<char>),
}

impl View for GadgetStep {
    type V = GadgetStepView;

    open spec fn view(&self) -> GadgetStepView {
        match self {
            GadgetStep::CreateDir { path } => GadgetStepView::CreateDir(path@),
            GadgetStep::Write { path, contents } => GadgetStepView::Write(path@, contents@),
            GadgetStep::Link { target, link } => GadgetStepView::Link(target@, link@),
        }
    }
}

/// A hexadecimal digit.
pub open spec fn hex_digit(d: int) -> char {
    if d < 10 {
        ('0' as int + d) as char
    } else {
        ('a' as int + d - 10) as char
    }
}

/// The hexadecimal digits of a number, at least `width` and at least one of them.
pub open spec fn hex_digits(v: nat, width: nat) -> Seq<char>
    decreases v + width,
{
    let rest = if v / 16 == 0 && width <= 1 {
        Seq::empty()
    } else if width == 0 {
        hex_digits(v / 16, 0)
    } else {
        hex_digits(v / 16, (width - 1) as nat)
    };
    rest.push(hex_digit((v % 16) as int))
}

/// A number in hexadecimal digits with `0x` in front.
pub open spec fn hex_text(v: u16, width: nat) -> Seq<char> {
    "0x"@ + hex_digits(v as nat, width)
}

/// The text of a hexadecimal digit.
fn digit_text(d: u16) -> (res: &'static str)
    requires
        d < 16,
    ensures
        res@ == seq![hex_digit(d as int)],
{
    proof {
        reveal_strlit("0");
        reveal_strlit("1");
        reveal_strlit("2");
        reveal_strlit("3");
        reveal_strlit("4");
        reveal_strlit("5");
        reveal_strlit("6");
        reveal_strlit("7");
        reveal_strlit("8");
        reveal_strlit("9");
        reveal_strlit("a");
        reveal_strlit("b");
        reveal_strlit("c");
        reveal_strlit("d");
        reveal_strlit("e");
        reveal_strlit("f");
    }
    let text: &'static str = match d {
        0 => "0",
        1 => "1",
        2 => "2",
        3 => "3",
        4 => "4",
        5 => "5",
        6 => "6",
        7 => "7",
        8 => "8",
        9 => "9",
        10 => "a",
        11 => "b",
        12 => "c",
        13 => "d",
        14 => "e",
        _ => "f",
    };
    assert(text@ =~= seq![hex_digit(d as int)]);
    text
}

/// The hexadecimal digits of a number, at least `width` and at least one of them.
fn format_digits(v: u16, width: usize) -> (res: String)
    ensures
        res@ == hex_digits(v as nat, width as nat),
    decreases v + width,
{
    let mut out: String = String::new();
    if v / 16 != 0 || width > 1 {
        out = format_digits(
            v / 16,
            if width == 0 {
                0
            } else {
                width - 1
            },
        );
    }
    let ghost rest = out@;
    out.append(digit_text(v % 16));
    assert(out@ =~= rest.push(hex_digit((v % 16) as int)));
    out
}

/// A number in hexadecimal digits with `0x` in front.
pub fn format_hex(v: u16, width: usize) -> (res: String)
    ensures
        res@ == hex_text(v, width as nat),
{
    "0x".to_owned().concat(format_digits(v, width).as_str())
}

/// A path below the gadget.
pub open spec fn below_gadget(path: Seq<char>) -> Seq<char> {
    GADGET_PATH@ + "/"@ + path
}

/// The directory of the gadget's strings.
pub open spec fn strings_path() -> Seq<char> {
    below_gadget("strings/"@ + hex_text(USB_LANG_EN_US, 0))
}

/// The directory of the configuration's strings.
pub open spec fn config_strings_path() -> Seq<char> {
    below_gadget("configs/c.1/strings/"@ + hex_text(USB_LANG_EN_US, 0))
}

/// The steps that set the gadget up for a device with this serial number.
pub open spec fn gadget_steps(serial: Seq<char>) -> Seq<GadgetStepView> {
    seq![
        GadgetStepView::CreateDir(FFS_PATH@),
        GadgetStepView::CreateDir(GADGET_PATH@),
        GadgetStepView::Write(
            below_gadget("idVendor"@),
            encode_utf8(hex_text(USB_VENDOR_ID_GOOGLE, 4)),
        ),
        GadgetStepView::Write(
            below_gadget("idProduct"@),
            encode_utf8(hex_text(USB_PRODUCT_ID_ADB, 4)),
        ),
        GadgetStepView::CreateDir(strings_path()),
        GadgetStepView::Write(
            strings_path() + "/manufacturer"@,
            encode_utf8(ADB_MANUFACTURER_EN@),
        ),
        GadgetStepView::Write(strings_path() + "/product"@, encode_utf8(ADB_PRODUCT_EN@)),
        GadgetStepView::Write(strings_path() + "/serialnumber"@, encode_utf8(serial)),
        GadgetStepView::CreateDir(below_gadget("configs/c.1"@)),
        GadgetStepView::CreateDir(config_strings_path()),
        GadgetStepView::Write(config_strings_path() + "/configuration"@, encode_utf8("adb"@)),
        GadgetStepView::CreateDir(below_gadget("functions/ffs.adb"@)),
        GadgetStepView::Link(
            below_gadget("functions/ffs.adb"@),
            below_gadget("configs/c.1/ffs.adb"@),
        ),
    ]
}

/// Steps as values.
pub open spec fn step_views(steps: Seq<GadgetStep>) -> Seq<GadgetStepView> {
    steps.map_values(|s: GadgetStep| s@)
}

/// What stands at a path.
pub enum Node {
    Dir,
    File(Seq<u8>),
    Link(Seq<char>),
}

/// A file tree: what stands at each path.
pub type Tree = Map<Seq<char>, Node>;

/// What stands at a path, if anything does.
pub open spec fn node_at(tree: Tree, path: Seq<char>) -> Option<Node> {
    if tree.contains_key(path) {
        Some(tree[path])
    } else {
        None
    }
}

/// Whether a path names a directory on the way to another path.
pub open spec fn leads_to(path: Seq<char>, other: Seq<char>) -> bool {
    &&& 0 < path.len() < other.len()
    &&& other[path.len() as int] == '/'
    &&& other.take(path.len() as int) == path
}

/// Whether a path names a directory, or one on the way to it.
pub open spec fn covers(dir: Seq<char>, path: Seq<char>) -> bool {
    path == dir || leads_to(path, dir)
}

/// What stands at a path after a step, given what stood there before.
pub open spec fn node_after(node: Option<Node>, step: GadgetStepView, path: Seq<char>) -> Option<
    Node,
> {
    match step {
        GadgetStepView::CreateDir(dir) => if node is None && covers(dir, path) {
            Some(Node::Dir)
        } else {
            node
        },
        GadgetStepView::Write(file, contents) => if path == file {
            Some(Node::File(contents))
        } else {
            node
        },
        GadgetStepView::Link(target, link) => if node is None && path == link {
            Some(Node::Link(target))
        } else {
            node
        },
    }
}

/// The file tree after a step, where the file system carries it out.
pub open spec fn tree_after(tree: Tree, step: GadgetStepView) -> Tree {
    Map::new(
        |path: Seq<char>| node_after(node_at(tree, path), step, path) is Some,
        |path: Seq<char>| node_after(node_at(tree, path), step, path)->0,
    )
}

/// The file tree after the first `n` steps.
pub open spec fn tree_after_steps(tree: Tree, steps: Seq<GadgetStepView>, n: nat) -> Tree
    decreases n,
{
    if n == 0 {
        tree
    } else {
        tree_after(tree_after_steps(tree, steps, (n - 1) as nat), steps[n - 1])
    }
}

/// The file tree after the gadget is set up.
pub open spec fn tree_after_setup(tree: Tree, serial: Seq<char>) -> Tree {
    tree_after_steps(tree, gadget_steps(serial), gadget_steps(serial).len())
}

/// What stands at a path after the first `n` steps.
spec fn node_after_steps(
    node: Option<Node>,
    steps: Seq<GadgetStepView>,
    n: nat,
    path: Seq<char>,
) -> Option<Node>
    decreases n,
{
    if n == 0 {
        node
    } else {
        node_after(node_after_steps(node, steps, (n - 1) as nat, path), steps[n - 1], path)
    }
}

proof fn lemma_node_after_steps(tree: Tree, steps: Seq<GadgetStepView>, n: nat, path: Seq<char>)
    ensures
        node_at(tree_after_steps(tree, steps, n), path) == node_after_steps(
            node_at(tree, path),
            steps,
            n,
            path,
        ),
    decreases n,
{
    if n > 0 {
        lemma_node_after_steps(tree, steps, (n - 1) as nat, path);
    }
}

/// The first `n` steps leave alone whatever stands at a path.
spec fn steps_keep(steps: Seq<GadgetStepView>, n: nat, path: Seq<char>) -> bool {
    forall|node: Option<Node>|
        node is Some ==> #[trigger] node_after_steps(node, steps, n, path) == node
}

/// What stands at a path after the first `n` steps does not depend on what stood there before.
spec fn steps_settle(steps: Seq<GadgetStepView>, n: nat, path: Seq<char>) -> bool {
    forall|node: Option<Node>|
        #[trigger] node_after_steps(node, steps, n, path) == node_after_steps(None, steps, n, path)
}

proof fn lemma_keep_or_settle(steps: Seq<GadgetStepView>, n: nat, path: Seq<char>)
    ensures
        steps_keep(steps, n, path) || steps_settle(steps, n, path),
    decreases n,
{
    if n > 0 {
        let m = (n - 1) as nat;
        lemma_keep_or_settle(steps, m, path);
        let writes = steps[n - 1] matches GadgetStepView::Write(file, _) && file == path;
        if writes || steps_settle(steps, m, path) {
            assert forall|node: Option<Node>|
                #[trigger] node_after_steps(node, steps, n, path) == node_after_steps(
                    None,
                    steps,
                    n,
                    path,
                ) by {
                assert(steps_settle(steps, m, path) ==> node_after_steps(node, steps, m, path)
                    == node_after_steps(None, steps, m, path));
            }
        } else {
            assert forall|node: Option<Node>| node is Some implies #[trigger] node_after_steps(
                node,
                steps,
                n,
                path,
            ) == node by {
                assert(node_after_steps(node, steps, m, path) == node);
            }
        }
    }
}

/// A file holds what was last written to it, whatever else is done afterwards.
proof fn lemma_last_write(
    tree: Tree,
    steps: Seq<GadgetStepView>,
    n: nat,
    i: int,
    path: Seq<char>,
    contents: Seq<u8>,
)
    requires
        0 <= i < n <= steps.len(),
        steps[i] == GadgetStepView::Write(path, contents),
        forall|j: int|
            i < j < n ==> ((#[trigger] steps[j]) matches GadgetStepView::Write(other, _) ==> other
                != path),
    ensures
        node_at(tree_after_steps(tree, steps, n), path) == Some(Node::File(contents)),
    decreases n,
{
    if i < n - 1 {
        lemma_last_write(tree, steps, (n - 1) as nat, i, path, contents);
    }
}

/// Whether one of the first `n` steps creates a directory at a path.
spec fn steps_create(steps: Seq<GadgetStepView>, n: nat, path: Seq<char>) -> bool {
    exists|j: int|
        0 <= j < n && ((#[trigger] steps[j]) matches GadgetStepView::CreateDir(dir) && covers(
            dir,
            path,
        ))
}

/// At a path that no step writes or links to, what is there stays, and directories come up.
proof fn lemma_only_directories(tree: Tree, steps: Seq<GadgetStepView>, n: nat, path: Seq<char>)
    requires
        n <= steps.len(),
        forall|j: int|
            0 <= j < n ==> match #[trigger] steps[j] {
                GadgetStepView::CreateDir(_) => true,
                GadgetStepView::Write(file, _) => file != path,
                GadgetStepView::Link(_, link) => link != path,
            },
    ensures
        node_at(tree_after_steps(tree, steps, n), path) == if tree.contains_key(path) {
            node_at(tree, path)
        } else if steps_create(steps, n, path) {
            Some(Node::Dir)
        } else {
            None
        },
    decreases n,
{
    if n > 0 {
        let m = (n - 1) as nat;
        lemma_only_directories(tree, steps, m, path);
        assert(steps[m as int] == steps[n - 1]);
        assert(steps_create(steps, m, path) ==> steps_create(steps, n, path));
    }
}

/// To take the same steps once more changes nothing, whatever the steps are.
pub proof fn steps_taken_again_change_nothing(tree: Tree, steps: Seq<GadgetStepView>)
    ensures
        ({
            let once = tree_after_steps(tree, steps, steps.len());
            tree_after_steps(once, steps, steps.len()) == once
        }),
{
    let n = steps.len();
    let once = tree_after_steps(tree, steps, n);
    let twice = tree_after_steps(once, steps, n);
    assert forall|path: Seq<char>| node_at(twice, path) == #[trigger] node_at(once, path) by {
        lemma_node_after_steps(tree, steps, n, path);
        lemma_node_after_steps(once, steps, n, path);
        lemma_keep_or_settle(steps, n, path);
        let first = node_after_steps(node_at(tree, path), steps, n, path);
        let second = node_after_steps(first, steps, n, path);
        assert(second == first);
    }
    assert forall|path: Seq<char>| twice.contains_key(path) <==> once.contains_key(path) by {
        assert(node_at(twice, path) == node_at(once, path));
    }
    assert forall|path: Seq<char>| once.contains_key(path) implies twice[path] == once[path] by {
        assert(node_at(twice, path) == node_at(once, path));
    }
    assert(twice =~= once);
}

/// To set up a gadget that is set up already changes nothing.
pub proof fn second_setup_changes_nothing(tree: Tree, serial: Seq<char>)
    ensures
        tree_after_setup(tree_after_setup(tree, serial), serial) == tree_after_setup(tree, serial),
{
    steps_taken_again_change_nothing(tree, gadget_steps(serial));
}

/// The numbers of the gadget as they are written.
proof fn lemma_hex_texts()
    ensures
        hex_text(USB_VENDOR_ID_GOOGLE, 4) == "0x18d1"@,
        hex_text(USB_PRODUCT_ID_ADB, 4) == "0x4ee7"@,
        hex_text(USB_LANG_EN_US, 0) == "0x409"@,
{
    reveal_with_fuel(hex_digits, 5);
    reveal_strlit("0x");
    reveal_strlit("0x18d1");
    reveal_strlit("0x4ee7");
    reveal_strlit("0x409");
    assert(hex_text(USB_VENDOR_ID_GOOGLE, 4) =~= "0x18d1"@);
    assert(hex_text(USB_PRODUCT_ID_ADB, 4) =~= "0x4ee7"@);
    assert(hex_text(USB_LANG_EN_US, 0) =~= "0x409"@);
}

/// The files of the gadget.
proof fn lemma_file_paths()
    ensures
        strings_path() + "/manufacturer"@ == below_gadget("strings/0x409/manufacturer"@),
        strings_path() + "/product"@ == below_gadget("strings/0x409/product"@),
        strings_path() + "/serialnumber"@ == below_gadget("strings/0x409/serialnumber"@),
        config_strings_path() + "/configuration"@ == below_gadget(
            "configs/c.1/strings/0x409/configuration"@,
        ),
{
    lemma_hex_texts();
    reveal_strlit("0x409");
    reveal_strlit("strings/");
    reveal_strlit("configs/c.1/strings/");
    reveal_strlit("/manufacturer");
    reveal_strlit("/product");
    reveal_strlit("/serialnumber");
    reveal_strlit("/configuration");
    reveal_strlit("strings/0x409/manufacturer");
    reveal_strlit("strings/0x409/product");
    reveal_strlit("strings/0x409/serialnumber");
    reveal_strlit("configs/c.1/strings/0x409/configuration");
    let lang = hex_text(USB_LANG_EN_US, 0);
    let strings = "strings/"@ + lang;
    let config_strings = "configs/c.1/strings/"@ + lang;
    assert(strings + "/manufacturer"@ =~= "strings/0x409/manufacturer"@);
    assert(strings + "/product"@ =~= "strings/0x409/product"@);
    assert(strings + "/serialnumber"@ =~= "strings/0x409/serialnumber"@);
    assert(config_strings + "/configuration"@ =~= "configs/c.1/strings/0x409/configuration"@);
    lemma_below_gadget(strings, "/manufacturer"@);
    lemma_below_gadget(strings, "/product"@);
    lemma_below_gadget(strings, "/serialnumber"@);
    lemma_below_gadget(config_strings, "/configuration"@);
}

proof fn lemma_below_gadget(path: Seq<char>, more: Seq<char>)
    ensures
        below_gadget(path) + more == below_gadget(path + more),
{
    assert(below_gadget(path) + more =~= below_gadget(path + more));
}

proof fn lemma_apart(a: Seq<char>, b: Seq<char>)
    requires
        a.len() != b.len() || exists|i: int| 0 <= i < a.len() && a[i] != b[i],
    ensures
        below_gadget(a) != below_gadget(b),
{
    let base = GADGET_PATH@ + "/"@;
    if below_gadget(a) == below_gadget(b) {
        assert(below_gadget(a).len() == base.len() + a.len());
        assert(below_gadget(b).len() == base.len() + b.len());
        let i = choose|i: int| 0 <= i < a.len() && a[i] != b[i];
        assert(below_gadget(a)[base.len() + i] == a[i]);
        assert(below_gadget(b)[base.len() + i] == b[i]);
    }
}

/// The files that are written when the gadget is set up.
pub open spec fn is_gadget_file(path: Seq<char>) -> bool {
    ||| path == below_gadget("idVendor"@)
    ||| path == below_gadget("idProduct"@)
    ||| path == below_gadget("strings/0x409/manufacturer"@)
    ||| path == below_gadget("strings/0x409/product"@)
    ||| path == below_gadget("strings/0x409/serialnumber"@)
    ||| path == below_gadget("configs/c.1/strings/0x409/configuration"@)
}

/// Once the gadget is set up, its files hold its USB ids, its names, the serial number of the
/// device, and the name of its configuration.
pub proof fn setup_fills_the_files(tree: Tree, serial: Seq<char>)
    ensures
        ({
            let after = tree_after_setup(tree, serial);
            let holds = |path: Seq<char>, text: Seq<char>|
                node_at(after, below_gadget(path)) == Some(Node::File(encode_utf8(text)));
            &&& holds("idVendor"@, "0x18d1"@)
            &&& holds("idProduct"@, "0x4ee7"@)
            &&& holds("strings/0x409/manufacturer"@, "Android"@)
            &&& holds("strings/0x409/product"@, "Android Debug Bridge"@)
            &&& holds("strings/0x409/serialnumber"@, serial)
            &&& holds("configs/c.1/strings/0x409/configuration"@, "adb"@)
        }),
{
    let steps = gadget_steps(serial);
    let n = steps.len();
    lemma_hex_texts();
    lemma_file_paths();
    reveal_strlit("idVendor");
    reveal_strlit("idProduct");
    reveal_strlit("strings/0x409/manufacturer");
    reveal_strlit("strings/0x409/product");
    reveal_strlit("strings/0x409/serialnumber");
    reveal_strlit("configs/c.1/strings/0x409/configuration");
    let vendor = "idVendor"@;
    let product_id = "idProduct"@;
    let manufacturer = "strings/0x409/manufacturer"@;
    let product = "strings/0x409/product"@;
    let serial_number = "strings/0x409/serialnumber"@;
    let configuration = "configs/c.1/strings/0x409/configuration"@;
    lemma_apart(vendor, product_id);
    lemma_apart(vendor, manufacturer);
    lemma_apart(vendor, product);
    lemma_apart(vendor, serial_number);
    lemma_apart(vendor, configuration);
    lemma_apart(product_id, manufacturer);
    lemma_apart(product_id, product);
    lemma_apart(product_id, serial_number);
    lemma_apart(product_id, configuration);
    assert(manufacturer[14] != serial_number[14]);
    lemma_apart(manufacturer, product);
    lemma_apart(manufacturer, serial_number);
    lemma_apart(manufacturer, configuration);
    lemma_apart(product, serial_number);
    lemma_apart(product, configuration);
    lemma_apart(serial_number, configuration);
    lemma_last_write(tree, steps, n, 2, below_gadget(vendor), encode_utf8("0x18d1"@));
    lemma_last_write(tree, steps, n, 3, below_gadget(product_id), encode_utf8("0x4ee7"@));
    lemma_last_write(tree, steps, n, 5, below_gadget(manufacturer), encode_utf8("Android"@));
    lemma_last_write(tree, steps, n, 6, below_gadget(product), encode_utf8("Android Debug Bridge"@));
    lemma_last_write(tree, steps, n, 7, below_gadget(serial_number), encode_utf8(serial));
    lemma_last_write(tree, steps, n, 10, below_gadget(configuration), encode_utf8("adb"@));
}

/// The directories that are there when the gadget is set up.
pub open spec fn is_gadget_dir(path: Seq<char>) -> bool {
    ||| covers(FFS_PATH@, path)
    ||| covers(GADGET_PATH@, path)
    ||| covers(below_gadget("strings/0x409"@), path)
    ||| covers(below_gadget("configs/c.1"@), path)
    ||| covers(below_gadget("configs/c.1/strings/0x409"@), path)
    ||| covers(below_gadget("functions/ffs.adb"@), path)
}

proof fn lemma_dir_paths()
    ensures
        strings_path() == below_gadget("strings/0x409"@),
        config_strings_path() == below_gadget("configs/c.1/strings/0x409"@),
{
    lemma_hex_texts();
    reveal_strlit("0x409");
    reveal_strlit("strings/");
    reveal_strlit("configs/c.1/strings/");
    reveal_strlit("strings/0x409");
    reveal_strlit("configs/c.1/strings/0x409");
    assert("strings/"@ + "0x409"@ =~= "strings/0x409"@);
    assert("configs/c.1/strings/"@ + "0x409"@ =~= "configs/c.1/strings/0x409"@);
}

/// Apart from the files that it writes and the link that it makes, setting the gadget up changes
/// nothing that is there already, and adds nothing but its directories.
pub proof fn setup_adds_only_directories(tree: Tree, serial: Seq<char>, path: Seq<char>)
    requires
        !is_gadget_file(path),
        path != below_gadget("configs/c.1/ffs.adb"@),
    ensures
        node_at(tree_after_setup(tree, serial), path) == if tree.contains_key(path) {
            node_at(tree, path)
        } else if is_gadget_dir(path) {
            Some(Node::Dir)
        } else {
            None
        },
{
    lemma_file_paths();
    lemma_dir_paths();
    let steps = gadget_steps(serial);
    lemma_only_directories(tree, steps, steps.len(), path);
    assert(is_gadget_dir(path) <==> steps_create(steps, steps.len(), path)) by {
        assert(steps[0] == GadgetStepView::CreateDir(FFS_PATH@));
        assert(steps[1] == GadgetStepView::CreateDir(GADGET_PATH@));
        assert(steps[4] == GadgetStepView::CreateDir(strings_path()));
        assert(steps[8] == GadgetStepView::CreateDir(below_gadget("configs/c.1"@)));
        assert(steps[9] == GadgetStepView::CreateDir(config_strings_path()));
        assert(steps[11] == GadgetStepView::CreateDir(below_gadget("functions/ffs.adb"@)));
    }
}

/// A path is not covered by a directory that differs from it somewhere inside both.
proof fn lemma_not_covered(dir: Seq<char>, path: Seq<char>, i: int)
    requires
        dir.len() < path.len() || (0 <= i < path.len() && i < dir.len() && dir[i] != path[i]),
    ensures
        !covers(dir, path),
{
    if leads_to(path, dir) {
        assert(dir.take(path.len() as int)[i] == dir[i]);
    }
}

/// Once the gadget is set up, its configuration links to its function, unless something was there
/// in place of the link: that stays.
pub proof fn setup_links_the_function(tree: Tree, serial: Seq<char>)
    ensures
        ({
            let link = below_gadget("configs/c.1/ffs.adb"@);
            node_at(tree_after_setup(tree, serial), link) == if tree.contains_key(link) {
                node_at(tree, link)
            } else {
                Some(Node::Link(below_gadget("functions/ffs.adb"@)))
            }
        }),
{
    let steps = gadget_steps(serial);
    let link = below_gadget("configs/c.1/ffs.adb"@);
    let base = GADGET_PATH@ + "/"@;
    let at = base.len() as int;
    lemma_file_paths();
    lemma_dir_paths();
    reveal_strlit("/run/muadib/ffs");
    reveal_strlit("/sys/kernel/config/usb_gadget/muadib");
    reveal_strlit("/");
    reveal_strlit("idVendor");
    reveal_strlit("idProduct");
    reveal_strlit("strings/0x409");
    reveal_strlit("strings/0x409/manufacturer");
    reveal_strlit("strings/0x409/product");
    reveal_strlit("strings/0x409/serialnumber");
    reveal_strlit("configs/c.1");
    reveal_strlit("configs/c.1/ffs.adb");
    reveal_strlit("configs/c.1/strings/0x409");
    reveal_strlit("configs/c.1/strings/0x409/configuration");
    reveal_strlit("functions/ffs.adb");
    lemma_not_covered(FFS_PATH@, link, 0);
    lemma_not_covered(GADGET_PATH@, link, 0);
    lemma_not_covered(strings_path(), link, 0);
    lemma_not_covered(below_gadget("configs/c.1"@), link, 0);
    assert(config_strings_path()[at + 12] == 's' && link[at + 12] == 'f');
    lemma_not_covered(config_strings_path(), link, at + 12);
    lemma_not_covered(below_gadget("functions/ffs.adb"@), link, 0);
    let before = tree_after_steps(tree, steps, 12);
    assert(!steps_create(steps, 12, link));
    lemma_only_directories(tree, steps, 12, link);
    assert(node_at(before, link) == node_at(tree, link));
}

/// A path below the gadget.
fn join_gadget(path: &str) -> (res: String)
    ensures
        res@ == below_gadget(path@),
{
    GADGET_PATH.to_owned().concat("/").concat(path)
}

/// A step that writes a text.
fn write_text(path: String, text: &str) -> (res: GadgetStep)
    ensures
        res@ == GadgetStepView::Write(path@, encode_utf8(text@)),
{
    GadgetStep::Write { path, contents: slice_to_vec(text.as_bytes()) }
}

/// The steps that set the gadget up for a device with this serial number.
pub fn setup_gadget(serial: &str) -> (steps: Vec<GadgetStep>)
    ensures
        step_views(steps@) == gadget_steps(serial@),
{
    let lang: String = format_hex(USB_LANG_EN_US, 0);
    let strings: String = join_gadget("strings/".to_owned().concat(lang.as_str()).as_str());
    let config_strings: String = join_gadget(
        "configs/c.1/strings/".to_owned().concat(lang.as_str()).as_str(),
    );
    let mut steps: Vec<GadgetStep> = Vec::new();
    steps.push(GadgetStep::CreateDir { path: FFS_PATH.to_owned() });
    steps.push(GadgetStep::CreateDir { path: GADGET_PATH.to_owned() });
    steps.push(
        write_text(join_gadget("idVendor"), format_hex(USB_VENDOR_ID_GOOGLE, 4).as_str()),
    );
    steps.push(write_text(join_gadget("idProduct"), format_hex(USB_PRODUCT_ID_ADB, 4).as_str()));
    steps.push(GadgetStep::CreateDir { path: strings.clone() });
    steps.push(write_text(strings.clone().concat("/manufacturer"), ADB_MANUFACTURER_EN));
    steps.push(write_text(strings.clone().concat("/product"), ADB_PRODUCT_EN));
    steps.push(write_text(strings.concat("/serialnumber"), serial));
    steps.push(GadgetStep::CreateDir { path: join_gadget("configs/c.1") });
    steps.push(GadgetStep::CreateDir { path: config_strings.clone() });
    steps.push(write_text(config_strings.concat("/configuration"), "adb"));
    steps.push(GadgetStep::CreateDir { path: join_gadget("functions/ffs.adb") });
    steps.push(
        GadgetStep::Link {
            target: join_gadget("functions/ffs.adb"),
            link: join_gadget("configs/c.1/ffs.adb"),
        },
    );
    assert(step_views(steps@) =~= gadget_steps(serial@));
    steps
}

/// The step that binds the gadget to a USB Device Controller, given its name.
pub fn bind_udc(udc: &[u8]) -> (step: GadgetStep)
    ensures
        step@ == GadgetStepView::Write(below_gadget("UDC"@), udc@),
{
    GadgetStep::Write { path: join_gadget("UDC"), contents: slice_to_vec(udc) }
}

/// The step that unbinds the gadget from its controller.
pub fn unbind_udc() -> (step: GadgetStep)
    ensures
        step@ == GadgetStepView::Write(below_gadget("UDC"@), Seq::empty()),
{
    GadgetStep::Write { path: join_gadget("UDC"), contents: Vec::new() }
}

/// The number that a hexadecimal digit stands for.
pub open spec fn hex_digit_value(c: char) -> int {
    if '0' <= c && c <= '9' {
        c as int - '0' as int
    } else {
        c as int - 'a' as int + 10
    }
}

/// The number that hexadecimal digits spell.
pub open spec fn hex_value(s: Seq<char>) -> int
    decreases s.len(),
{
    if s.len() == 0 {
        0
    } else {
        16 * hex_value(s.drop_last()) + hex_digit_value(s.last())
    }
}

proof fn lemma_hex_value(v: nat, width: nat)
    ensures
        hex_value(hex_digits(v, width)) == v,
        hex_digits(v, width).len() >= width,
        hex_digits(v, width).len() >= 1,
        forall|i: int|
            0 <= i < hex_digits(v, width).len() ==> {
                let c = #[trigger] hex_digits(v, width)[i];
                ('0' <= c && c <= '9') || ('a' <= c && c <= 'f')
            },
        hex_digits(v, width).len() > width && v > 0 ==> hex_digits(v, width)[0] != '0',
        v == 0 ==> hex_digits(v, width).len() == if width == 0 {
            1
        } else {
            width
        },
    decreases v + width,
{
    let digits = hex_digits(v, width);
    let front = digits.drop_last();
    assert(digits.last() == hex_digit((v % 16) as int));
    assert(hex_digit_value(hex_digit((v % 16) as int)) == v % 16);
    if v / 16 == 0 && width <= 1 {
        assert(front =~= Seq::empty());
        assert(hex_value(front) == 0);
    } else {
        let less: nat = if width == 0 {
            0
        } else {
            (width - 1) as nat
        };
        lemma_hex_value(v / 16, less);
        assert(front =~= hex_digits(v / 16, less));
    }
    assert forall|i: int| 0 <= i < digits.len() implies ({
        let c = #[trigger] digits[i];
        ('0' <= c && c <= '9') || ('a' <= c && c <= 'f')
    }) by {
        if i < front.len() {
            assert(digits[i] == front[i]);
        }
    }
}

/// A number in hexadecimal spells that number, in lower case behind `0x`, in at least as many
/// digits as are asked for and with zeros in front only up to them.
pub proof fn hex_texts_spell_numbers(v: u16, width: nat)
    ensures
        hex_text(v, width).take(2) == "0x"@,
        ({
            let digits = hex_text(v, width).skip(2);
            &&& hex_value(digits) == v
            &&& digits.len() >= width && digits.len() >= 1
            &&& digits.len() > width && v > 0 ==> digits[0] != '0'
            &&& forall|i: int|
                0 <= i < digits.len() ==> {
                    let c = #[trigger] digits[i];
                    ('0' <= c && c <= '9') || ('a' <= c && c <= 'f')
                }
        }),
{
    reveal_strlit("0x");
    lemma_hex_value(v as nat, width);
    assert(hex_text(v, width).take(2) =~= "0x"@);
    assert(hex_text(v, width).skip(2) =~= hex_digits(v as nat, width));
}

} // verus!
