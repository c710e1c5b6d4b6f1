# firmina

Signing files in CAdES (CMS SignedData, RFC 5652, with the ESS
signing-certificate-v2 attribute of RFC 5035) with a PKCS#11 smart key, and
extracting the content of `.p7m` files.

The library (`src/`) is verified with Verus:

- `der`: DER length octets and tag-length-value framing, with reading and
  writing proved inverse to each other.
- `order`: the DER order of SET OF components (octet-wise lexicographic),
  and a sort proved to produce it.
- `oid`: object identifiers from their arcs; distinct identifiers have
  distinct encodings.
- `cms`: the encodings of AlgorithmIdentifier, Attribute, the signed
  attributes, SignerInfo, EncapsulatedContentInfo, SignedData (with the
  version that RFC 5652 fixes from its certificates and SignerInfos) and
  ContentInfo.
- `read`: reading certificates (issuer and serial number), SignerInfos and
  attached signatures; whether a certificate, a ContentInfo or a SignedData
  decodes at all is asked of `rasn`.
- `cades`: a signature under construction (payload, certificates,
  SignerInfos), signers added through the `Signer` trait, finalized as an
  attached or a detached signature. What a signer answers is described by
  predicates that its implementor defines; a signature is stated over them.
- `laws`: reading back an attached signature gives the payload, certificates
  and SignerInfos it was made of (field by field always; through
  `Cades::from_attached_signature` and `extract` where `rasn` decodes the
  ContentInfo and SignedData written, which these read through `rasn` first);
  one signer gives one certificate, one SignerInfo and SHA-256 alone; the
  output does not depend on the order in which signers were added.
- `sign`, `cli`: one-shot signing and the paths and content that the command
  line writes.
- `digest`, `time`: SHA-256 (from `sha2`) and the signing time (from the
  system clock and `chrono`).

`app/` is the command line: argument parsing, the PIN prompt, file I/O and
the PKCS#11 signer (`cryptoki`). The PKCS#11 module of the key is taken from
`FIRMINA_PKCS11_MODULE`, else from the system library directory.
