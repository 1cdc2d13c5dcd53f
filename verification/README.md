# keystore

Credentials for a program, by reference: the name of an account in the system
keyring, or a 1Password reference such as `op://vault/item/field`.

`src/` is a library written and proved in Verus. It holds the rules: the form of
references, how they are shown without their field, which environment variable a
secret goes to, what is asked of the keyring or of the `op` program, and what
each answer comes to. It does no input or output.

`app/` asks the keyring, runs `op` and logs, as the library says.

`tests/` runs the library on examples, and its text operations against those of
the standard library.
