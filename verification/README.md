# rsoap

SOAP envelope handling and WSDL walking, verified with Verus.

- `src/envelope.rs`: building SOAP 1.1 and 1.2 envelopes, extracting the
  Body, serializing faults, detecting and parsing faults. The proof
  functions there state what reads back of what is written: the body of a
  built envelope, the code and message of a serialized fault, alone or
  inside an envelope.
- `src/xml.rs`: a lightweight element walker (local names whatever the
  namespace prefix, attributes on opening tags, self-closing tags, direct
  children) with the lemmas that read back written elements.
- `src/wsdl.rs`: attribute search over WSDL text, operations, messages and
  their typed fields, read from the embedded schema's element
  declarations.
- `src/codegen.rs`: what the `SoapOperation` derive generates for an
  operation, and under which names.
- `src/error.rs`: the error type and its HTTP messages.
- `src/text.rs`: character-level search and trimming with their lemmas.
- `app/`: serde-based request/response conversion, the error type's
  `Display` (through `thiserror`), and the token generation of the derive.
- `tests/`: the tests, run against the compiled library.
