//! Assigning each method its role.
use vstd::prelude::*;
use crate::model::{Marker, Role};

verus! {

/// The role of a method with the given visibility and marker: public and
/// JNI-marked methods are exported, methods marked as calls into the JVM are
/// imported whatever their visibility, and everything else is left alone.
pub open spec fn role_of(public: bool, marker: Marker) -> Role {
    if public && marker == Marker::Jni {
        Role::Exported
    } else if marker == Marker::JavaCall {
        Role::Imported
    } else {
        Role::Unexported
    }
}

pub fn classify(public: bool, marker: Marker) -> (r: Role)
    ensures
        r == role_of(public, marker),
{
    match marker {
        Marker::Jni => if public { Role::Exported } else { Role::Unexported },
        Marker::JavaCall => Role::Imported,
        Marker::Plain => Role::Unexported,
    }
}

/// Every combination of visibility and marker gets exactly the role its
/// markers ask for: exported precisely for public JNI-marked methods,
/// imported precisely for methods marked as calls into the JVM.
pub proof fn lemma_classification_exhaustive(public: bool, marker: Marker)
    ensures
        (role_of(public, marker) == Role::Exported) <==> (public && marker == Marker::Jni),
        (role_of(public, marker) == Role::Imported) <==> (marker == Marker::JavaCall),
        (role_of(public, marker) == Role::Unexported) <==> !(public && marker == Marker::Jni) && marker
            != Marker::JavaCall,
{
}

} // verus!
