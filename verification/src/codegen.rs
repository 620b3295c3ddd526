//! What the `SoapOperation` derive generates for an operation: the names of
//! the generated items, and which code to generate from a WSDL text.

use vstd::prelude::*;
use vstd::string::StringExecFns;

use crate::wsdl::{ParsedWsdl, WsdlOperation, WsdlOperationView, parsed_wsdl};

verus! {

broadcast use vstd::string::group_string_axioms;

/// What `str::to_lowercase` yields for `s` (its Unicode lowercase mapping,
/// with the final-sigma rule).
pub uninterp spec fn str_lowercase(s: Seq<char>) -> Seq<char>;

/// The lowercase form of `s`.
///
/// Calls `str::to_lowercase`; its result is named by `str_lowercase`.
#[verifier::external_body]
fn lowercase(s: &str) -> (r: String)
    ensures
        r@ == str_lowercase(s@),
{
    s.to_lowercase()
}

/// The names of the items generated for one operation.
#[derive(Debug)]
pub struct GeneratedNames {
    /// The module holding the request and response types.
    pub module: String,
    /// The request type.
    pub request: String,
    /// The response type.
    pub response: String,
}

/// The names of the items generated for operation `operation_name`: the
/// module is the lowercased name, the types are the name followed by
/// `Request` and `Response`.
pub fn generated_names(operation_name: &str) -> (r: GeneratedNames)
    ensures
        r.module@ == str_lowercase(operation_name@),
        r.request@ == operation_name@ + "Request"@,
        r.response@ == operation_name@ + "Response"@,
{
    let module = lowercase(operation_name);
    let mut request = operation_name.to_string();
    request.append("Request");
    let mut response = operation_name.to_string();
    response.append("Response");
    GeneratedNames { module, request, response }
}

/// The names of `ops`, separated by `, `.
pub open spec fn names_joined(ops: Seq<WsdlOperationView>) -> Seq<char>
    decreases ops.len(),
{
    if ops.len() == 0 {
        Seq::empty()
    } else if ops.len() == 1 {
        ops[0].name
    } else {
        names_joined(ops.drop_last()) + ", "@ + ops.last().name
    }
}

/// The code to generate for a derive.
#[derive(Debug)]
pub enum CodegenPlan {
    /// No WSDL text: empty request and response types to fill in by hand.
    Placeholder,
    /// Typed code for this operation of the WSDL.
    Generate(WsdlOperation),
    /// The WSDL has no operation of the wanted name; `available` lists the
    /// names it has, separated by `, `.
    Unknown { available: String },
}

/// Choose the code to generate for operation `operation_name` of the WSDL
/// text `wsdl`: a placeholder when the text is empty, else the first parsed
/// operation of that name, else the list of the operations there are.
pub fn plan_codegen(wsdl: &str, operation_name: &str) -> (r: CodegenPlan)
    ensures
        wsdl@.len() == 0 <==> r is Placeholder,
        wsdl@.len() > 0 ==> ({
            let ops = parsed_wsdl(wsdl@).operations;
            match r {
                CodegenPlan::Generate(op) => exists|i: int|
                    0 <= i < ops.len() && ops[i] == op@ && op.name@ == operation_name@
                        && forall|j: int| 0 <= j < i ==> ops[j].name != operation_name@,
                CodegenPlan::Unknown { available } => available@ == names_joined(ops)
                    && forall|j: int| 0 <= j < ops.len() ==> ops[j].name != operation_name@,
                CodegenPlan::Placeholder => false,
            }
        }),
{
    if wsdl.unicode_len() == 0 {
        return CodegenPlan::Placeholder;
    }
    let parsed = ParsedWsdl::parse(wsdl);
    let ghost ops = parsed@.operations;
    let mut operations = parsed.operations;
    let wanted = operation_name.to_string();
    let mut available = String::new();
    let mut i: usize = 0;
    while i < operations.len()
        invariant
            i <= operations@.len(),
            ops == operations@.map_values(|o: WsdlOperation| o@),
            ops == parsed_wsdl(wsdl@).operations,
            wsdl@.len() > 0,
            wanted@ == operation_name@,
            forall|j: int| 0 <= j < i ==> ops[j].name != operation_name@,
            available@ == names_joined(ops.take(i as int)),
        decreases operations@.len() - i,
    {
        if operations[i].name == wanted {
            let ghost found = operations@[i as int];
            let op = operations.remove(i);
            proof {
                assert(op == found);
                assert(ops[i as int] == op@);
            }
            return CodegenPlan::Generate(op);
        }
        proof {
            assert(ops.take(i as int + 1).drop_last() =~= ops.take(i as int));
        }
        if i > 0 {
            available.append(", ");
        }
        available.append(operations[i].name.as_str());
        i = i + 1;
    }
    proof {
        assert(ops.take(operations@.len() as int) =~= ops);
    }
    CodegenPlan::Unknown { available }
}

} // verus!
