//! Signature help.

use crate::ast::{AlSymbol, AlSymbolKind};
use crate::navigation::{call_context, find_call_context};
use crate::protocol::Position;
use crate::rope::{byte_offset_of, lsp_position_to_byte_offset};
use crate::state::{position_of_uri, DocumentEntry, WorldState};
use crate::symbols::type_suffix;
use crate::text::{append, copy_of};
use vstd::prelude::*;
use vstd::string::StringSliceAdditionalSpecFns;

verus! {

/// The signature of the routine that a call calls.
#[derive(Debug)]
pub struct SignatureHelp {
    /// `Name(parameter: type, …): ReturnType`.
    pub label: Vec<u8>,
    /// The parameters, each as `name: type`; none for a routine without parameters.
    pub parameters: Option<Vec<Vec<u8>>>,
    /// The index of the parameter at the cursor. Indices beyond the range
    /// of `u32` wrap.
    pub active_parameter: u32,
}

/// The mathematical value of a signature.
pub struct SignatureModel {
    pub label: Seq<u8>,
    pub parameters: Option<Seq<Seq<u8>>>,
    pub active_parameter: u32,
}

/// The byte strings that a vector of byte vectors holds.
pub open spec fn labels_of(v: Seq<Vec<u8>>) -> Seq<Seq<u8>>
    decreases v.len(),
{
    if v.len() == 0 {
        Seq::empty()
    } else {
        labels_of(v.drop_last()).push(v.last()@)
    }
}

impl View for SignatureHelp {
    type V = SignatureModel;

    open spec fn view(&self) -> SignatureModel {
        SignatureModel {
            label: self.label@,
            parameters: match self.parameters {
                Some(p) => Some(labels_of(p@)),
                None => None,
            },
            active_parameter: self.active_parameter,
        }
    }
}

/// A parameter as a signature shows it: `name: type`, or the name alone.
pub open spec fn parameter_label(parameter: AlSymbol) -> Seq<u8> {
    parameter.name@ + type_suffix(parameter.type_info)
}

/// The labels of the parameters among the first `n` children of a routine.
pub open spec fn parameter_labels(children: Seq<AlSymbol>, n: int) -> Seq<Seq<u8>>
    decreases n,
{
    if n <= 0 || n > children.len() {
        Seq::empty()
    } else if children[n - 1].kind == AlSymbolKind::Parameter {
        parameter_labels(children, n - 1).push(parameter_label(children[n - 1]))
    } else {
        parameter_labels(children, n - 1)
    }
}

/// The first `n` labels, joined by `, `.
pub open spec fn label_list(labels: Seq<Seq<u8>>, n: int) -> Seq<u8>
    decreases n,
{
    if n <= 0 || n > labels.len() {
        Seq::empty()
    } else if n == 1 {
        labels[0]
    } else {
        label_list(labels, n - 1) + ", ".spec_bytes() + labels[n - 1]
    }
}

/// The signature of a routine as a call of the name `function_name` shows it.
pub open spec fn signature_of(routine: AlSymbol, function_name: Seq<u8>, active: nat)
    -> SignatureModel {
    let labels = parameter_labels(routine.children@, routine.children@.len() as int);
    SignatureModel {
        label: function_name + "(".spec_bytes() + label_list(labels, labels.len() as int)
            + ")".spec_bytes() + type_suffix(routine.type_info),
        parameters: if labels.len() > 0 {
            Some(labels)
        } else {
            None
        },
        active_parameter: (active as usize) as u32,
    }
}

/// The answer to a request for signature help: the signature of the
/// routine that the call round the position calls; nothing outside a call
/// and where the name of the call resolves to no routine.
pub open spec fn signature_answer(entries: Seq<DocumentEntry>, uri: Seq<char>, position: Position)
    -> Option<SignatureModel> {
    match position_of_uri(entries, uri, 0) {
        Some(i) => {
            let doc = entries[i].document;
            match byte_offset_of(doc.text(), position) {
                Some(offset) => match call_context(doc.syntax(), doc.text(), doc.table(), offset) {
                    Some(c) => match c.symbol {
                        Some(routine) => Some(
                            signature_of(routine, c.function_name, c.active_parameter),
                        ),
                        None => None,
                    },
                    None => None,
                },
                None => None,
            }
        },
        None => None,
    }
}

proof fn lemma_labels_push(v: Seq<Vec<u8>>, label: Vec<u8>)
    ensures
        labels_of(v.push(label)) == labels_of(v).push(label@),
{
    assert(v.push(label).drop_last() =~= v);
}

proof fn lemma_labels(v: Seq<Vec<u8>>)
    ensures
        labels_of(v).len() == v.len(),
        forall|i: int| 0 <= i < v.len() ==> #[trigger] labels_of(v)[i] == v[i]@,
    decreases v.len(),
{
    if v.len() > 0 {
        lemma_labels(v.drop_last());
    }
}

fn parameter_labels_of(routine: &AlSymbol) -> (r: Vec<Vec<u8>>)
    ensures
        labels_of(r@) == parameter_labels(routine.children@, routine.children@.len() as int),
{
    let mut labels: Vec<Vec<u8>> = Vec::new();
    let mut i: usize = 0;
    while i < routine.children.len()
        invariant
            i <= routine.children.len(),
            labels_of(labels@) == parameter_labels(routine.children@, i as int),
        decreases routine.children.len() - i,
    {
        let p = &routine.children[i];
        match p.kind {
            AlSymbolKind::Parameter => {
                let mut label = copy_of(p.name.as_slice());
                match &p.type_info {
                    Some(t) => {
                        append(&mut label, ": ".as_bytes());
                        append(&mut label, t.as_slice());
                        assert(label@ =~= parameter_label(*p));
                    },
                    None => {
                        assert(label@ =~= parameter_label(*p));
                    },
                }
                proof {
                    lemma_labels_push(labels@, label);
                }
                labels.push(label);
            },
            _ => {},
        }
        i += 1;
    }
    labels
}

/// The signature of the routine that the call round a position calls.
pub fn handle_signature_help(state: &WorldState, uri: &String, position: Position) -> (r: Option<
    SignatureHelp,
>)
    ensures
        match r {
            Some(help) => signature_answer(state@, uri@, position) == Some(help@),
            None => signature_answer(state@, uri@, position) is None,
        },
{
    let doc = match state.get(uri.as_str()) {
        Some(d) => d,
        None => {
            return None;
        },
    };
    let byte_offset = match lsp_position_to_byte_offset(doc.rope(), position) {
        Some(o) => o,
        None => {
            return None;
        },
    };
    let source = doc.source();
    let ctx = match find_call_context(
        doc.tree(),
        source.as_slice(),
        doc.symbol_table(),
        byte_offset,
    ) {
        Some(c) => c,
        None => {
            return None;
        },
    };
    let sym = match ctx.symbol {
        Some(s) => s,
        None => {
            return None;
        },
    };
    let parameters = parameter_labels_of(sym);
    let ghost labels = labels_of(parameters@);
    proof {
        lemma_labels(parameters@);
    }
    let mut label = copy_of(ctx.function_name.as_slice());
    append(&mut label, "(".as_bytes());
    let ghost head = label@;
    let mut i: usize = 0;
    assert(label@ =~= head + label_list(labels, 0));
    while i < parameters.len()
        invariant
            i <= parameters.len(),
            labels == labels_of(parameters@),
            labels.len() == parameters@.len(),
            forall|k: int| 0 <= k < parameters@.len() ==> #[trigger] labels[k] == parameters@[k]@,
            label@ == head + label_list(labels, i as int),
        decreases parameters.len() - i,
    {
        let ghost before = label_list(labels, i as int);
        if i > 0 {
            append(&mut label, ", ".as_bytes());
        }
        append(&mut label, parameters[i].as_slice());
        assert(label@ =~= head + if i == 0 {
            labels[0]
        } else {
            before + ", ".spec_bytes() + labels[i as int]
        });
        i += 1;
    }
    append(&mut label, ")".as_bytes());
    match &sym.type_info {
        Some(t) => {
            append(&mut label, ": ".as_bytes());
            append(&mut label, t.as_slice());
        },
        None => {},
    }
    assert(label@ =~= ctx.function_name@ + "(".spec_bytes() + label_list(
        labels,
        labels.len() as int,
    ) + ")".spec_bytes() + type_suffix(sym.type_info));
    let active = ctx.active_parameter;
    Some(
        SignatureHelp {
            label,
            parameters: if parameters.len() == 0 {
                None
            } else {
                Some(parameters)
            },
            active_parameter: #[verifier::truncate]
            (active as u32),
        },
    )
}

} // verus!
