{% extends "base" %}
{% block content %}
<div class="flex items-center justify-center min-h-screen">
<div class="w-full max-w-sm mx-4">
<h1 class="text-2xl font-bold mb-6 text-center">MinimaMemosa</h1>
<form action="/login" method="post" class="space-y-4">
<div>
<label for="username" class="block text-sm font-medium mb-1">Username</label>
<input type="text" name="username" id="username" required
class="w-full px-3 py-2 border border-border rounded-lg bg-card focus:outline-none focus:ring-2 focus:ring-accent-500">
</div>
<div>
<label for="password" class="block text-sm font-medium mb-1">Password</label>
<input type="password" name="password" id="password" required
class="w-full px-3 py-2 border border-border rounded-lg bg-card focus:outline-none focus:ring-2 focus:ring-accent-500">
</div>
{% if error %}
<p class="text-red-500 text-sm">{{ error }}</p>
{% endif %}
<button type="submit"
class="w-full py-2 px-4 bg-accent-600 text-white rounded-lg hover:bg-accent-700 focus:outline-none focus:ring-2 focus:ring-accent-500">
Sign In
</button>
</form>
<p class="text-center text-sm text-muted-fg mt-4">
Don't have an account? <a href="/register" class="text-accent-600 hover:underline">Register</a>
</p>
</div>
</div>
{% endblock %}