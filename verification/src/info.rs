//! Introspection metadata for a D-Bus interface: methods, properties and
//! signals, together with their arguments and annotations, and a builder
//! that assembles an interface description step by step.
//!
//! Handler values are opaque to this module: the [`Handlers`] trait only
//! names the handler types that an interface description carries.

use vstd::prelude::*;

verus! {

/// Names the handler types stored in method and property descriptions.
pub trait Handlers {
    /// Type of a method handler.
    type Method;

    /// Type of a property read handler.
    type GetProp;

    /// Type of a property write handler.
    type SetProp;
}

/// Annotations attached to an interface, member or argument.
///
/// Kept as a list of `(name, value)` pairs where a later entry for the same
/// name overrides an earlier one.
pub struct Annotations {
    /// The `(name, value)` pairs, in insertion order.
    pub entries: Vec<(String, String)>,
}

impl Annotations {
    /// An empty annotation set.
    pub fn new() -> (r: Annotations)
        ensures
            r.entries@.len() == 0,
    {
        Annotations { entries: Vec::new() }
    }

    /// Records `value` under `name`, overriding any earlier entry.
    pub fn insert(&mut self, name: String, value: String)
        ensures
            final(self).entries@ == old(self).entries@.push((name, value)),
    {
        self.entries.push((name, value));
    }
}

/// One argument of a method or signal: its name and type signature.
pub struct Argument {
    /// Argument name.
    pub name: String,
    /// Type signature of the argument.
    pub sig: String,
    /// Annotations attached to this argument.
    pub anns: Annotations,
}

/// True when `r` holds one argument per `(name, signature)` pair of `a`,
/// in order, each with no annotations.
pub open spec fn argvec_matches(r: Seq<Argument>, a: Seq<(String, String)>) -> bool {
    r.len() == a.len() && forall|i: int|
        0 <= i < a.len() ==> (#[trigger] r[i]).name == a[i].0 && r[i].sig == a[i].1
            && r[i].anns.entries@.len() == 0
}

/// Turns `(name, signature)` pairs into [`Argument`] records.
pub fn build_argvec(args: Vec<(String, String)>) -> (r: Vec<Argument>)
    ensures
        argvec_matches(r@, args@),
{
    let ghost all = args@;
    let mut args = args;
    let mut r: Vec<Argument> = Vec::new();
    while args.len() > 0
        invariant
            r@.len() + args@.len() == all.len(),
            args@ =~= all.skip(r@.len() as int),
            argvec_matches(r@, all.take(r@.len() as int)),
        decreases args@.len(),
    {
        let x = args.remove(0);
        r.push(Argument { name: x.0, sig: x.1, anns: Annotations::new() });
        proof {
            assert(all.take(r@.len() as int) =~= all.take(r@.len() - 1).push(
                all[r@.len() - 1],
            ));
        }
    }
    proof {
        assert(all.take(all.len() as int) =~= all);
    }
    r
}

/// Description of one method: its name, handler and arguments.
pub struct MethodInfo<H: Handlers> {
    /// Member name of the method.
    pub name: String,
    /// The handler invoked for this method.
    pub handler: H::Method,
    /// Input arguments.
    pub i_args: Vec<Argument>,
    /// Output arguments.
    pub o_args: Vec<Argument>,
    /// Annotations attached to this method.
    pub anns: Annotations,
}

impl<H: Handlers> MethodInfo<H> {
    /// The method's member name.
    pub fn name(&self) -> (r: &String)
        ensures
            r == &self.name,
    {
        &self.name
    }

    /// The method's handler.
    pub fn handler(&self) -> (r: &H::Method)
        ensures
            r == &self.handler,
    {
        &self.handler
    }

    /// Mutable access to the method's handler.
    pub fn handler_mut(&mut self) -> (r: &mut H::Method)
        ensures
            *r == old(self).handler,
            final(self).name == old(self).name,
            final(self).handler == *final(r),
            final(self).i_args == old(self).i_args,
            final(self).o_args == old(self).o_args,
            final(self).anns == old(self).anns,
    {
        &mut self.handler
    }

    /// A method description with the given name and handler and no
    /// arguments or annotations.
    pub fn new(name: String, f: H::Method) -> (r: MethodInfo<H>)
        ensures
            r.name == name,
            r.handler == f,
            r.i_args@.len() == 0,
            r.o_args@.len() == 0,
            r.anns.entries@.len() == 0,
    {
        MethodInfo {
            name,
            handler: f,
            i_args: Vec::new(),
            o_args: Vec::new(),
            anns: Annotations::new(),
        }
    }
}

/// How a property signals that it changed.
#[derive(Clone, Copy, PartialEq, Eq, Structural, Debug)]
pub enum EmitsChangedSignal {
    /// The property emits a signal that includes the new value.
    True,
    /// The property emits a signal that does not include the new value.
    Invalidates,
    /// The property cannot change.
    Const,
    /// The property does not emit a signal when changed.
    False,
}

/// Whether a property can be read, written, or both.
#[derive(Clone, Copy, PartialEq, Eq, Structural, Debug)]
pub enum Access {
    /// The property can only be read.
    Read,
    /// The property can be read and written.
    ReadWrite,
    /// The property can only be written.
    Write,
}

/// Description of one property.
pub struct PropInfo<H: Handlers> {
    /// Member name of the property.
    pub name: String,
    /// Handler that reads the property, if readable.
    pub get: Option<H::GetProp>,
    /// Handler that writes the property, if writable.
    pub set: Option<H::SetProp>,
    /// Annotations attached to this property.
    pub anns: Annotations,
    /// Type signature of the property value.
    pub sig: String,
    /// Change-signalling behaviour.
    pub emits: EmitsChangedSignal,
    /// Whether change signals are emitted automatically.
    pub auto_emit: bool,
    /// Read/write access, derived from which handlers exist.
    pub rw: Access,
}

impl<H: Handlers> PropInfo<H> {
    /// A property description; its access is derived from which of the two
    /// handlers are present, and at least one must be.
    pub fn new(name: String, sig: String, get: Option<H::GetProp>, set: Option<H::SetProp>)
        -> (r: PropInfo<H>)
        requires
            get is Some || set is Some,
        ensures
            r.name == name,
            r.sig == sig,
            r.get == get,
            r.set == set,
            r.auto_emit,
            r.emits == EmitsChangedSignal::True,
            r.anns.entries@.len() == 0,
            r.rw == (if get is Some && set is Some {
                Access::ReadWrite
            } else if get is Some {
                Access::Read
            } else {
                Access::Write
            }),
    {
        let a = match (&get, &set) {
            (Some(_), Some(_)) => Access::ReadWrite,
            (Some(_), None) => Access::Read,
            (None, Some(_)) => Access::Write,
            (None, None) => {
                proof {
                    assert(false);
                }
                Access::Write
            },
        };
        PropInfo {
            name,
            get,
            set,
            anns: Annotations::new(),
            sig,
            auto_emit: true,
            rw: a,
            emits: EmitsChangedSignal::True,
        }
    }
}

/// Description of one signal.
pub struct SignalInfo {
    /// Member name of the signal.
    pub name: String,
    /// Arguments carried by the signal.
    pub args: Vec<Argument>,
    /// Annotations attached to this signal.
    pub anns: Annotations,
}

/// Description of one interface: its methods, properties and signals.
pub struct IfaceInfo<H: Handlers> {
    /// Interface name.
    pub name: String,
    /// Methods of the interface.
    pub methods: Vec<MethodInfo<H>>,
    /// Properties of the interface.
    pub props: Vec<PropInfo<H>>,
    /// Signals of the interface.
    pub signals: Vec<SignalInfo>,
    /// Annotations attached to the interface itself.
    pub anns: Annotations,
}

impl<H: Handlers> IfaceInfo<H> {
    /// An interface description with no members.
    pub fn new_empty(name: String) -> (r: IfaceInfo<H>)
        ensures
            r.name == name,
            r.methods@.len() == 0,
            r.props@.len() == 0,
            r.signals@.len() == 0,
            r.anns.entries@.len() == 0,
    {
        IfaceInfo {
            name,
            methods: Vec::new(),
            props: Vec::new(),
            signals: Vec::new(),
            anns: Annotations::new(),
        }
    }

    /// An interface description holding the given members.
    pub fn new(
        name: String,
        methods: Vec<MethodInfo<H>>,
        properties: Vec<PropInfo<H>>,
        signals: Vec<SignalInfo>,
    ) -> (r: IfaceInfo<H>)
        ensures
            r.name == name,
            r.methods == methods,
            r.props == properties,
            r.signals == signals,
            r.anns.entries@.len() == 0,
    {
        IfaceInfo { name, methods, props: properties, signals, anns: Annotations::new() }
    }
}


/// True when `new` is `old` with one `org.freedesktop.DBus.Deprecated` =
/// `true` entry appended.
pub open spec fn deprecation_appended(new: Seq<(String, String)>, old: Seq<(String, String)>)
    -> bool {
    &&& new.len() == old.len() + 1
    &&& new.take(old.len() as int) == old
    &&& new.last().0@ == "org.freedesktop.DBus.Deprecated"@
    &&& new.last().1@ == "true"@
}

/// Which kind of member was added to the builder most recently.
#[derive(Clone, Copy, PartialEq, Eq, Structural, Debug)]
pub enum MetSigProp {
    /// A method was added last.
    Method,
    /// A signal was added last.
    Signal,
    /// A property was added last.
    Prop,
}

/// Builds an [`IfaceInfo`] incrementally. `I` marks the object type the
/// interface is registered for and carries no data.
pub struct IfaceInfoBuilder<I, H: Handlers> {
    /// The interface description assembled so far.
    pub info: IfaceInfo<H>,
    /// The kind of the most recently added member, if any.
    pub last: Option<MetSigProp>,
    /// Marks the object type `I` without holding data of it.
    pub _dummy: core::marker::PhantomData<I>,
}

impl<I, H: Handlers> IfaceInfoBuilder<I, H> {
    /// True when `last` points at a member that really exists.
    pub open spec fn wf(self) -> bool {
        &&& self.last == Some(MetSigProp::Method) ==> self.info.methods@.len() > 0
        &&& self.last == Some(MetSigProp::Signal) ==> self.info.signals@.len() > 0
        &&& self.last == Some(MetSigProp::Prop) ==> self.info.props@.len() > 0
    }

    /// A builder for an interface with the given name and no members yet.
    pub fn new(name: String) -> (r: IfaceInfoBuilder<I, H>)
        ensures
            r.wf(),
            r.info.name == name,
            r.info.methods@.len() == 0,
            r.info.props@.len() == 0,
            r.info.signals@.len() == 0,
            r.info.anns.entries@.len() == 0,
            r.last is None,
    {
        IfaceInfoBuilder {
            info: IfaceInfo::new_empty(name),
            last: None,
            _dummy: core::marker::PhantomData,
        }
    }

    /// Adds a signal with the given arguments.
    pub fn signal(self, name: String, args: Vec<(String, String)>) -> (r: IfaceInfoBuilder<I, H>)
        requires
            self.wf(),
        ensures
            r.wf(),
            r.info.name == self.info.name,
            r.info.methods == self.info.methods,
            r.info.props == self.info.props,
            r.info.anns == self.info.anns,
            r.info.signals@.len() == self.info.signals@.len() + 1,
            r.info.signals@.take(self.info.signals@.len() as int) == self.info.signals@,
            r.info.signals@.last().name == name,
            argvec_matches(r.info.signals@.last().args@, args@),
            r.info.signals@.last().anns.entries@.len() == 0,
            r.last == Some(MetSigProp::Signal),
    {
        let mut this = self;
        let s = SignalInfo { name, args: build_argvec(args), anns: Annotations::new() };
        this.info.signals.push(s);
        this.last = Some(MetSigProp::Signal);
        proof {
            assert(this.info.signals@.take(self.info.signals@.len() as int)
                =~= self.info.signals@);
        }
        this
    }

    /// Adds a method with the given handler and argument lists.
    pub fn method(
        self,
        name: String,
        in_args: Vec<(String, String)>,
        out_args: Vec<(String, String)>,
        f: H::Method,
    ) -> (r: IfaceInfoBuilder<I, H>)
        requires
            self.wf(),
        ensures
            r.wf(),
            r.info.name == self.info.name,
            r.info.signals == self.info.signals,
            r.info.props == self.info.props,
            r.info.anns == self.info.anns,
            r.info.methods@.len() == self.info.methods@.len() + 1,
            r.info.methods@.take(self.info.methods@.len() as int) == self.info.methods@,
            r.info.methods@.last().name == name,
            r.info.methods@.last().handler == f,
            argvec_matches(r.info.methods@.last().i_args@, in_args@),
            argvec_matches(r.info.methods@.last().o_args@, out_args@),
            r.info.methods@.last().anns.entries@.len() == 0,
            r.last == Some(MetSigProp::Method),
    {
        let mut this = self;
        let m = MethodInfo {
            name,
            handler: f,
            i_args: build_argvec(in_args),
            o_args: build_argvec(out_args),
            anns: Annotations::new(),
        };
        this.info.methods.push(m);
        this.last = Some(MetSigProp::Method);
        proof {
            assert(this.info.methods@.take(self.info.methods@.len() as int)
                =~= self.info.methods@);
        }
        this
    }

    /// Adds a read-write property with the given value signature.
    pub fn prop_rw(self, name: String, sig: String, getf: H::GetProp, setf: H::SetProp) -> (r:
        IfaceInfoBuilder<I, H>)
        requires
            self.wf(),
        ensures
            r.wf(),
            r.info.name == self.info.name,
            r.info.signals == self.info.signals,
            r.info.methods == self.info.methods,
            r.info.anns == self.info.anns,
            r.info.props@.len() == self.info.props@.len() + 1,
            r.info.props@.take(self.info.props@.len() as int) == self.info.props@,
            r.info.props@.last().name == name,
            r.info.props@.last().sig == sig,
            r.info.props@.last().get is Some,
            r.info.props@.last().set is Some,
            r.info.props@.last().rw == Access::ReadWrite,
            r.last == Some(MetSigProp::Prop),
    {
        let mut this = self;
        let p = PropInfo::new(name, sig, Some(getf), Some(setf));
        this.info.props.push(p);
        this.last = Some(MetSigProp::Prop);
        proof {
            assert(this.info.props@.take(self.info.props@.len() as int) =~= self.info.props@);
        }
        this
    }

    /// Adds a read-only property with the given value signature.
    pub fn prop_ro(self, name: String, sig: String, getf: H::GetProp) -> (r: IfaceInfoBuilder<
        I,
        H,
    >)
        requires
            self.wf(),
        ensures
            r.wf(),
            r.info.name == self.info.name,
            r.info.signals == self.info.signals,
            r.info.methods == self.info.methods,
            r.info.anns == self.info.anns,
            r.info.props@.len() == self.info.props@.len() + 1,
            r.info.props@.take(self.info.props@.len() as int) == self.info.props@,
            r.info.props@.last().name == name,
            r.info.props@.last().sig == sig,
            r.info.props@.last().get is Some,
            r.info.props@.last().set is None,
            r.info.props@.last().rw == Access::Read,
            r.last == Some(MetSigProp::Prop),
    {
        let mut this = self;
        let p = PropInfo::new(name, sig, Some(getf), None);
        this.info.props.push(p);
        this.last = Some(MetSigProp::Prop);
        proof {
            assert(this.info.props@.take(self.info.props@.len() as int) =~= self.info.props@);
        }
        this
    }

    /// Annotates the most recently added method, signal or property, or the
    /// interface itself when no member was added yet.
    pub fn annotate(self, name: String, value: String) -> (r: IfaceInfoBuilder<I, H>)
        requires
            self.wf(),
        ensures
            r.wf(),
            r.last == self.last,
            r.info.name == self.info.name,
            match self.last {
                None => {
                    &&& r.info.anns.entries@ == self.info.anns.entries@.push((name, value))
                    &&& r.info.methods == self.info.methods
                    &&& r.info.signals == self.info.signals
                    &&& r.info.props == self.info.props
                },
                Some(MetSigProp::Method) => {
                    &&& r.info.anns == self.info.anns
                    &&& r.info.signals == self.info.signals
                    &&& r.info.props == self.info.props
                    &&& r.info.methods@.len() == self.info.methods@.len()
                    &&& r.info.methods@.take(self.info.methods@.len() - 1)
                        == self.info.methods@.take(self.info.methods@.len() - 1)
                    &&& r.info.methods@.last().anns.entries@
                        == self.info.methods@.last().anns.entries@.push((name, value))
                    &&& r.info.methods@.last().name == self.info.methods@.last().name
                    &&& r.info.methods@.last().handler == self.info.methods@.last().handler
                    &&& r.info.methods@.last().i_args == self.info.methods@.last().i_args
                    &&& r.info.methods@.last().o_args == self.info.methods@.last().o_args
                },
                Some(MetSigProp::Signal) => {
                    &&& r.info.anns == self.info.anns
                    &&& r.info.methods == self.info.methods
                    &&& r.info.props == self.info.props
                    &&& r.info.signals@.len() == self.info.signals@.len()
                    &&& r.info.signals@.take(self.info.signals@.len() - 1)
                        == self.info.signals@.take(self.info.signals@.len() - 1)
                    &&& r.info.signals@.last().anns.entries@
                        == self.info.signals@.last().anns.entries@.push((name, value))
                    &&& r.info.signals@.last().name == self.info.signals@.last().name
                    &&& r.info.signals@.last().args == self.info.signals@.last().args
                },
                Some(MetSigProp::Prop) => {
                    &&& r.info.anns == self.info.anns
                    &&& r.info.methods == self.info.methods
                    &&& r.info.signals == self.info.signals
                    &&& r.info.props@.len() == self.info.props@.len()
                    &&& r.info.props@.take(self.info.props@.len() - 1)
                        == self.info.props@.take(self.info.props@.len() - 1)
                    &&& r.info.props@.last().anns.entries@
                        == self.info.props@.last().anns.entries@.push((name, value))
                    &&& r.info.props@.last().name == self.info.props@.last().name
                    &&& r.info.props@.last().sig == self.info.props@.last().sig
                    &&& r.info.props@.last().get == self.info.props@.last().get
                    &&& r.info.props@.last().set == self.info.props@.last().set
                    &&& r.info.props@.last().rw == self.info.props@.last().rw
                },
            },
    {
        let mut this = self;
        match this.last {
            None => {
                this.info.anns.insert(name, value);
            },
            Some(MetSigProp::Method) => {
                let mut m = this.info.methods.pop().unwrap();
                m.anns.insert(name, value);
                this.info.methods.push(m);
                proof {
                    assert(this.info.methods@.take(self.info.methods@.len() - 1)
                        =~= self.info.methods@.take(self.info.methods@.len() - 1));
                }
            },
            Some(MetSigProp::Signal) => {
                let mut s = this.info.signals.pop().unwrap();
                s.anns.insert(name, value);
                this.info.signals.push(s);
                proof {
                    assert(this.info.signals@.take(self.info.signals@.len() - 1)
                        =~= self.info.signals@.take(self.info.signals@.len() - 1));
                }
            },
            Some(MetSigProp::Prop) => {
                let mut p = this.info.props.pop().unwrap();
                p.anns.insert(name, value);
                this.info.props.push(p);
                proof {
                    assert(this.info.props@.take(self.info.props@.len() - 1)
                        =~= self.info.props@.take(self.info.props@.len() - 1));
                }
            },
        }
        this
    }

    /// Marks the most recently added member (or the interface itself, when
    /// no member was added yet) as deprecated: one annotation with name
    /// `org.freedesktop.DBus.Deprecated` and value `true` is appended to
    /// the same annotation set that [`Self::annotate`] would reach, and
    /// everything else is left as it was.
    pub fn deprecated(self) -> (r: IfaceInfoBuilder<I, H>)
        requires
            self.wf(),
        ensures
            r.wf(),
            r.last == self.last,
            r.info.name == self.info.name,
            match self.last {
                None => {
                    &&& deprecation_appended(r.info.anns.entries@, self.info.anns.entries@)
                    &&& r.info.methods == self.info.methods
                    &&& r.info.signals == self.info.signals
                    &&& r.info.props == self.info.props
                },
                Some(MetSigProp::Method) => {
                    &&& r.info.anns == self.info.anns
                    &&& r.info.signals == self.info.signals
                    &&& r.info.props == self.info.props
                    &&& r.info.methods@.len() == self.info.methods@.len()
                    &&& r.info.methods@.take(self.info.methods@.len() - 1)
                        == self.info.methods@.take(self.info.methods@.len() - 1)
                    &&& deprecation_appended(
                        r.info.methods@.last().anns.entries@,
                        self.info.methods@.last().anns.entries@,
                    )
                    &&& r.info.methods@.last().name == self.info.methods@.last().name
                    &&& r.info.methods@.last().handler == self.info.methods@.last().handler
                    &&& r.info.methods@.last().i_args == self.info.methods@.last().i_args
                    &&& r.info.methods@.last().o_args == self.info.methods@.last().o_args
                },
                Some(MetSigProp::Signal) => {
                    &&& r.info.anns == self.info.anns
                    &&& r.info.methods == self.info.methods
                    &&& r.info.props == self.info.props
                    &&& r.info.signals@.len() == self.info.signals@.len()
                    &&& r.info.signals@.take(self.info.signals@.len() - 1)
                        == self.info.signals@.take(self.info.signals@.len() - 1)
                    &&& deprecation_appended(
                        r.info.signals@.last().anns.entries@,
                        self.info.signals@.last().anns.entries@,
                    )
                    &&& r.info.signals@.last().name == self.info.signals@.last().name
                    &&& r.info.signals@.last().args == self.info.signals@.last().args
                },
                Some(MetSigProp::Prop) => {
                    &&& r.info.anns == self.info.anns
                    &&& r.info.methods == self.info.methods
                    &&& r.info.signals == self.info.signals
                    &&& r.info.props@.len() == self.info.props@.len()
                    &&& r.info.props@.take(self.info.props@.len() - 1)
                        == self.info.props@.take(self.info.props@.len() - 1)
                    &&& deprecation_appended(
                        r.info.props@.last().anns.entries@,
                        self.info.props@.last().anns.entries@,
                    )
                    &&& r.info.props@.last().name == self.info.props@.last().name
                    &&& r.info.props@.last().sig == self.info.props@.last().sig
                    &&& r.info.props@.last().get == self.info.props@.last().get
                    &&& r.info.props@.last().set == self.info.props@.last().set
                    &&& r.info.props@.last().rw == self.info.props@.last().rw
                },
            },
    {
        let ghost olast = self.last;
        let ghost oanns = self.info.anns.entries@;
        let ghost omethods = self.info.methods@;
        let ghost osignals = self.info.signals@;
        let ghost oprops = self.info.props@;
        let name = "org.freedesktop.DBus.Deprecated";
        let value = "true";
        let r = self.annotate(name.to_owned(), value.to_owned());
        proof {
            match olast {
                None => {
                    assert(r.info.anns.entries@.take(oanns.len() as int) =~= oanns);
                },
                Some(MetSigProp::Method) => {
                    let olda = omethods.last().anns.entries@;
                    assert(r.info.methods@.last().anns.entries@.take(olda.len() as int)
                        =~= olda);
                },
                Some(MetSigProp::Signal) => {
                    let olda = osignals.last().anns.entries@;
                    assert(r.info.signals@.last().anns.entries@.take(olda.len() as int)
                        =~= olda);
                },
                Some(MetSigProp::Prop) => {
                    let olda = oprops.last().anns.entries@;
                    assert(r.info.props@.last().anns.entries@.take(olda.len() as int) =~= olda);
                },
            }
        }
        r
    }
}

} // verus!
