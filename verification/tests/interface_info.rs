//! Tests of the interface description builder and its metadata records.

use dbus_codec::info::{
    build_argvec, Access, Annotations, EmitsChangedSignal, Handlers, IfaceInfo, IfaceInfoBuilder,
    MethodInfo, PropInfo,
};

struct TestHandlers;

impl Handlers for TestHandlers {
    type Method = u32;
    type GetProp = i64;
    type SetProp = i64;
}

#[test]
fn method_info_accessors() {
    let mut m: MethodInfo<TestHandlers> = MethodInfo::new("Hello".to_string(), 7);
    assert_eq!(m.name(), "Hello");
    assert_eq!(*m.handler(), 7);
    *m.handler_mut() = 9;
    assert_eq!(*m.handler(), 9);
    assert!(m.i_args.is_empty());
    assert!(m.o_args.is_empty());
}

#[test]
fn prop_info_access_is_derived_from_handlers() {
    let p: PropInfo<TestHandlers> =
        PropInfo::new("Level".to_string(), "u".to_string(), Some(1), Some(2));
    assert_eq!(p.rw, Access::ReadWrite);
    assert_eq!(p.emits, EmitsChangedSignal::True);
    assert!(p.auto_emit);

    let p: PropInfo<TestHandlers> =
        PropInfo::new("Level".to_string(), "u".to_string(), Some(1), None);
    assert_eq!(p.rw, Access::Read);

    let p: PropInfo<TestHandlers> =
        PropInfo::new("Level".to_string(), "u".to_string(), None, Some(2));
    assert_eq!(p.rw, Access::Write);
}

#[test]
fn argvec_builds_in_order() {
    let args = vec![
        ("first".to_string(), "s".to_string()),
        ("second".to_string(), "u".to_string()),
    ];
    let v = build_argvec(args);
    assert_eq!(v.len(), 2);
    assert_eq!(v[0].name, "first");
    assert_eq!(v[0].sig, "s");
    assert_eq!(v[1].name, "second");
    assert_eq!(v[1].sig, "u");
}

#[test]
fn annotations_record_pairs() {
    let mut a = Annotations::new();
    a.insert("org.example.Hidden".to_string(), "true".to_string());
    a.insert("org.example.Hidden".to_string(), "false".to_string());
    assert_eq!(a.entries.len(), 2);
    assert_eq!(a.entries[1].1, "false");
}

#[test]
fn builder_collects_members() {
    let b: IfaceInfoBuilder<(), TestHandlers> =
        IfaceInfoBuilder::new("org.example.Iface".to_string());
    let b = b
        .method(
            "Frobnicate".to_string(),
            vec![("input".to_string(), "s".to_string())],
            vec![("output".to_string(), "u".to_string())],
            11,
        )
        .annotate("org.example.Note".to_string(), "yes".to_string())
        .signal("Changed".to_string(), vec![("value".to_string(), "v".to_string())])
        .prop_ro("Version".to_string(), "u".to_string(), 1)
        .prop_rw("Level".to_string(), "i".to_string(), 2, 3)
        .deprecated();
    let info = b.info;
    assert_eq!(info.name, "org.example.Iface");
    assert_eq!(info.methods.len(), 1);
    assert_eq!(info.methods[0].name, "Frobnicate");
    assert_eq!(info.methods[0].i_args[0].name, "input");
    assert_eq!(info.methods[0].o_args[0].sig, "u");
    assert_eq!(info.methods[0].anns.entries.len(), 1);
    assert_eq!(info.methods[0].anns.entries[0].0, "org.example.Note");
    assert_eq!(info.signals.len(), 1);
    assert_eq!(info.signals[0].args[0].sig, "v");
    assert_eq!(info.props.len(), 2);
    assert_eq!(info.props[0].rw, Access::Read);
    assert_eq!(info.props[1].rw, Access::ReadWrite);
    // `deprecated` annotated the last added member, the second property.
    assert_eq!(info.props[1].anns.entries[0].0, "org.freedesktop.DBus.Deprecated");
    assert_eq!(info.props[1].anns.entries[0].1, "true");
    assert_eq!(info.anns.entries.len(), 0);
}

#[test]
fn builder_annotates_interface_when_empty() {
    let b: IfaceInfoBuilder<(), TestHandlers> =
        IfaceInfoBuilder::new("org.example.Iface".to_string());
    let b = b.annotate("org.example.Note".to_string(), "x".to_string());
    assert_eq!(b.info.anns.entries.len(), 1);
}

#[test]
fn iface_info_constructors() {
    let empty: IfaceInfo<TestHandlers> = IfaceInfo::new_empty("org.example".to_string());
    assert!(empty.methods.is_empty() && empty.props.is_empty() && empty.signals.is_empty());

    let m: MethodInfo<TestHandlers> = MethodInfo::new("M".to_string(), 1);
    let info: IfaceInfo<TestHandlers> =
        IfaceInfo::new("org.example".to_string(), vec![m], vec![], vec![]);
    assert_eq!(info.methods.len(), 1);
    assert_eq!(info.props.len(), 0);
}
